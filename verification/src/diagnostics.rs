//! The diagnostic collector: shared error/warning/info infrastructure.
//!
//! All phases write to a shared `DiagnosticCollector`. The collector
//! accumulates messages without halting compilation, enabling the compiler
//! to report as many issues as possible in a single run.
//!
//! ## Code Ranges
//!
//! | Phase    | Range         |
//! |----------|---------------|
//! | PARSE    | URD100–URD199 |
//! | IMPORT   | URD200–URD299 |
//! | LINK     | URD300–URD399 |
//! | VALIDATE | URD400–URD499 |
//! | EMIT     | URD500–URD599 |
//! | ANALYZE (FactSet) | URD600–URD699 |

use vstd::prelude::*;
use crate::span::{Span, SpanV, span_view};
use crate::text::{chars_of, compare_chars, lex_order, lemma_lex_order_antisym};

verus! {

/// Diagnostic severity levels.
#[derive(Debug, Clone, Copy, PartialEq, Eq, Structural, PartialOrd, Ord)]
pub enum Severity {
    Error,
    Warning,
    Info,
}

/// Position of a severity in the reporting order: errors, then warnings, then info.
pub open spec fn severity_rank(s: Severity) -> int {
    match s {
        Severity::Error => 0,
        Severity::Warning => 1,
        Severity::Info => 2,
    }
}

fn severity_rank_exec(s: Severity) -> (r: u8)
    ensures
        r == severity_rank(s),
{
    match s {
        Severity::Error => 0,
        Severity::Warning => 1,
        Severity::Info => 2,
    }
}

/// A single diagnostic message.
#[derive(Debug)]
pub struct Diagnostic {
    pub severity: Severity,
    pub code: String,
    pub message: String,
    pub span: Span,
    pub suggestion: Option<String>,
    pub related: Vec<RelatedInfo>,
}

/// Additional context for a diagnostic (e.g. "first declared here").
#[derive(Debug)]
pub struct RelatedInfo {
    pub message: String,
    pub span: Span,
}

impl Clone for RelatedInfo {
    fn clone(&self) -> (r: Self)
        ensures
            r == *self,
    {
        RelatedInfo { message: self.message.clone(), span: self.span.clone() }
    }
}

impl Clone for Diagnostic {
    fn clone(&self) -> (r: Self)
        ensures
            r.severity == self.severity,
            r.code == self.code,
            r.message == self.message,
            r.span == self.span,
            r.suggestion == self.suggestion,
            r.related@ == self.related@,
    {
        let mut related: Vec<RelatedInfo> = Vec::new();
        let mut i: usize = 0;
        while i < self.related.len()
            invariant
                i <= self.related.len(),
                related@ == self.related@.take(i as int),
            decreases self.related.len() - i,
        {
            related.push(self.related[i].clone());
            i += 1;
        }
        assert(self.related@.take(self.related.len() as int) == self.related@);
        let suggestion = match &self.suggestion {
            Some(s) => Some(s.clone()),
            None => None,
        };
        Diagnostic {
            severity: self.severity,
            code: self.code.clone(),
            message: self.message.clone(),
            span: self.span.clone(),
            suggestion,
            related,
        }
    }
}

/// The reporting order of two diagnostics: by file path, then start line,
/// then start column, then severity. Negative, zero or positive as `a`
/// comes before, ties with, or comes after `b`. File paths compare
/// character by character, which is the byte order of their UTF-8 text.
pub open spec fn diag_order(a: Diagnostic, b: Diagnostic) -> int {
    let f = lex_order(a.span.file@, b.span.file@);
    if f != 0 {
        f
    } else if a.span.start_line != b.span.start_line {
        if a.span.start_line < b.span.start_line { -1 } else { 1 }
    } else if a.span.start_col != b.span.start_col {
        if a.span.start_col < b.span.start_col { -1 } else { 1 }
    } else {
        if severity_rank(a.severity) < severity_rank(b.severity) {
            -1
        } else if severity_rank(a.severity) > severity_rank(b.severity) {
            1
        } else {
            0
        }
    }
}

/// `p` lists every index of `d` exactly once, in reporting order, with
/// diagnostics that tie keeping the order in which they were recorded.
pub open spec fn is_report_order(d: Seq<Diagnostic>, p: Seq<int>) -> bool {
    &&& p.len() == d.len()
    &&& forall|k: int| 0 <= k < p.len() ==> 0 <= #[trigger] p[k] < d.len()
    &&& forall|a: int, b: int| 0 <= a < b < p.len() ==> p[a] != p[b]
    &&& forall|k: int| 0 <= k < p.len() - 1 ==> diag_order(d[#[trigger] p[k]], d[p[k + 1]]) <= 0
    &&& forall|k: int| 0 <= k < p.len() - 1 && diag_order(d[#[trigger] p[k]], d[p[k + 1]]) == 0
        ==> p[k] < p[k + 1]
}

/// A diagnostic as a phase reports it: severity, code, message and span,
/// with no suggestion and no related entries.
pub open spec fn is_plain(d: Diagnostic, severity: Severity, code: Seq<char>, message: Seq<char>, span: SpanV) -> bool {
    &&& d.severity == severity
    &&& d.code@ == code
    &&& d.message@ == message
    &&& span_view(d.span) == span
    &&& d.suggestion is None
    &&& d.related@.len() == 0
}

/// The expected shape of a plain diagnostic: severity, code, message, span.
pub type PlainDiag = (Severity, Seq<char>, Seq<char>, SpanV);

pub open spec fn matches_plain(d: Diagnostic, e: PlainDiag) -> bool {
    is_plain(d, e.0, e.1, e.2, e.3)
}

/// `new` is `old` followed by diagnostics matching `added`, in order.
pub open spec fn appended(new: Seq<Diagnostic>, old: Seq<Diagnostic>, added: Seq<PlainDiag>) -> bool {
    &&& new.len() == old.len() + added.len()
    &&& new.take(old.len() as int) == old
    &&& forall|i: int| 0 <= i < added.len() ==> matches_plain(#[trigger] new[old.len() + i], added[i])
}

/// Appending nothing, and appending in two steps.
pub proof fn lemma_appended_empty(d: Seq<Diagnostic>)
    ensures
        appended(d, d, Seq::<PlainDiag>::empty()),
{
    assert(d.take(d.len() as int) == d);
}

pub proof fn lemma_appended_trans(a: Seq<Diagnostic>, b: Seq<Diagnostic>, c: Seq<Diagnostic>, x: Seq<PlainDiag>, y: Seq<PlainDiag>)
    requires
        appended(b, a, x),
        appended(c, b, y),
    ensures
        appended(c, a, x + y),
{
    assert(c.take(a.len() as int) == b.take(a.len() as int));
    assert forall|i: int| 0 <= i < (x + y).len() implies matches_plain(#[trigger] c[a.len() + i], (x + y)[i]) by {
        if i < x.len() {
            assert(c[a.len() + i] == b[a.len() + i]);
        } else {
            assert(c[a.len() + i] == c[b.len() + (i - x.len())]);
        }
    }
}

/// A diagnostic by severity, code, message, span and suggestion (with no
/// related entries).
pub type DiagV = (Severity, Seq<char>, Seq<char>, SpanV, Option<Seq<char>>);

pub open spec fn matches_diag(d: Diagnostic, e: DiagV) -> bool {
    &&& d.severity == e.0
    &&& d.code@ == e.1
    &&& d.message@ == e.2
    &&& span_view(d.span) == e.3
    &&& match d.suggestion {
        Some(s) => e.4 == Some(s@),
        None => e.4 is None,
    }
    &&& d.related@.len() == 0
}

/// `new` is `old` followed by diagnostics matching `added`, in order.
pub open spec fn logged(new: Seq<Diagnostic>, old: Seq<Diagnostic>, added: Seq<DiagV>) -> bool {
    &&& new.len() == old.len() + added.len()
    &&& new.take(old.len() as int) == old
    &&& forall|i: int| 0 <= i < added.len() ==> matches_diag(#[trigger] new[old.len() + i], added[i])
}

pub proof fn lemma_logged_empty(d: Seq<Diagnostic>)
    ensures
        logged(d, d, Seq::<DiagV>::empty()),
{
    assert(d.take(d.len() as int) == d);
}

pub proof fn lemma_logged_trans(a: Seq<Diagnostic>, b: Seq<Diagnostic>, c: Seq<Diagnostic>, x: Seq<DiagV>, y: Seq<DiagV>)
    requires
        logged(b, a, x),
        logged(c, b, y),
    ensures
        logged(c, a, x + y),
{
    assert(c.take(a.len() as int) == b.take(a.len() as int));
    assert forall|i: int| 0 <= i < (x + y).len() implies matches_diag(#[trigger] c[a.len() + i], (x + y)[i]) by {
        if i < x.len() {
            assert(c[a.len() + i] == b[a.len() + i]);
        } else {
            assert(c[a.len() + i] == c[b.len() + (i - x.len())]);
        }
    }
}

/// One diagnostic pushed onto `old` is logged as itself.
pub proof fn lemma_logged_one(old: Seq<Diagnostic>, d: Diagnostic, e: DiagV)
    requires
        matches_diag(d, e),
    ensures
        logged(old.push(d), old, seq![e]),
{
    assert(old.push(d).take(old.len() as int) == old);
    assert(old.push(d)[old.len() as int] == d);
}

/// Accumulates diagnostics from all compiler phases.
#[derive(Debug)]
pub struct DiagnosticCollector {
    diagnostics: Vec<Diagnostic>,
}

impl View for DiagnosticCollector {
    type V = Seq<Diagnostic>;

    closed spec fn view(&self) -> Seq<Diagnostic> {
        self.diagnostics@
    }
}

impl DiagnosticCollector {
    pub fn new() -> (c: Self)
        ensures
            c@ == Seq::<Diagnostic>::empty(),
    {
        DiagnosticCollector { diagnostics: Vec::new() }
    }

    fn push_new(&mut self, severity: Severity, code: &str, message: String, span: Span)
        ensures
            final(self)@.len() == old(self)@.len() + 1,
            final(self)@.drop_last() == old(self)@,
            final(self)@.last().severity == severity,
            final(self)@.last().code@ == code@,
            final(self)@.last().message == message,
            final(self)@.last().span == span,
            final(self)@.last().suggestion is None,
            final(self)@.last().related@.len() == 0,
    {
        let d = Diagnostic {
            severity,
            code: code.to_owned(),
            message,
            span,
            suggestion: None,
            related: Vec::new(),
        };
        self.diagnostics.push(d);
        assert(self.diagnostics@.drop_last() == old(self).diagnostics@);
    }

    /// Record an error diagnostic.
    pub fn error(&mut self, code: &str, message: String, span: Span)
        ensures
            final(self)@.len() == old(self)@.len() + 1,
            final(self)@.drop_last() == old(self)@,
            final(self)@.last().severity == Severity::Error,
            final(self)@.last().code@ == code@,
            final(self)@.last().message == message,
            final(self)@.last().span == span,
            final(self)@.last().suggestion is None,
            final(self)@.last().related@.len() == 0,
    {
        self.push_new(Severity::Error, code, message, span);
    }

    /// Record a warning diagnostic.
    pub fn warning(&mut self, code: &str, message: String, span: Span)
        ensures
            final(self)@.len() == old(self)@.len() + 1,
            final(self)@.drop_last() == old(self)@,
            final(self)@.last().severity == Severity::Warning,
            final(self)@.last().code@ == code@,
            final(self)@.last().message == message,
            final(self)@.last().span == span,
            final(self)@.last().suggestion is None,
            final(self)@.last().related@.len() == 0,
    {
        self.push_new(Severity::Warning, code, message, span);
    }

    /// Record an info diagnostic.
    pub fn info(&mut self, code: &str, message: String, span: Span)
        ensures
            final(self)@.len() == old(self)@.len() + 1,
            final(self)@.drop_last() == old(self)@,
            final(self)@.last().severity == Severity::Info,
            final(self)@.last().code@ == code@,
            final(self)@.last().message == message,
            final(self)@.last().span == span,
            final(self)@.last().suggestion is None,
            final(self)@.last().related@.len() == 0,
    {
        self.push_new(Severity::Info, code, message, span);
    }

    /// Record a fully specified diagnostic.
    pub fn emit(&mut self, diagnostic: Diagnostic)
        ensures
            final(self)@ == old(self)@.push(diagnostic),
    {
        self.diagnostics.push(diagnostic);
    }

    /// Returns `true` if any Error-severity diagnostic has been recorded.
    pub fn has_errors(&self) -> (b: bool)
        ensures
            b == exists|i: int| 0 <= i < self@.len() && (#[trigger] self@[i]).severity == Severity::Error,
    {
        let mut i: usize = 0;
        while i < self.diagnostics.len()
            invariant
                i <= self.diagnostics.len(),
                forall|j: int| 0 <= j < i ==> (#[trigger] self.diagnostics@[j]).severity != Severity::Error,
            decreases self.diagnostics.len() - i,
        {
            if self.diagnostics[i].severity == Severity::Error {
                return true;
            }
            i += 1;
        }
        false
    }

    /// Returns all diagnostics, sorted in deterministic order:
    /// 1. By file path (alphabetical)
    /// 2. By source position (line, then column)
    /// 3. By severity (errors before warnings before info)
    /// Diagnostics that tie keep the order in which they were recorded.
    pub fn sorted(&self) -> (out: Vec<&Diagnostic>)
        ensures
            exists|p: Seq<int>| {
                &&& is_report_order(self@, p)
                &&& out@.len() == p.len()
                &&& forall|k: int| 0 <= k < p.len() ==> *(#[trigger] out@[k]) == self@[p[k]]
            },
    {
        let order = self.report_order();
        let mut out: Vec<&Diagnostic> = Vec::new();
        let mut k: usize = 0;
        while k < order.len()
            invariant
                k <= order.len(),
                is_report_order(self@, order@.map_values(|x: usize| x as int)),
                out@.len() == k,
                forall|j: int| 0 <= j < k ==> *(#[trigger] out@[j]) == self@[order@[j] as int],
            decreases order.len() - k,
        {
            assert(order@.map_values(|x: usize| x as int)[k as int] == order@[k as int] as int);
            let idx = order[k];
            out.push(&self.diagnostics[idx]);
            k += 1;
        }
        let ghost p = order@.map_values(|x: usize| x as int);
        assert forall|k: int| 0 <= k < p.len() implies *(#[trigger] out@[k]) == self@[p[k]] by {
            assert(p[k] == order@[k] as int);
        }
        out
    }

    /// The indices of the diagnostics in reporting order (stable insertion sort).
    #[verifier::spinoff_prover]
    #[verifier::rlimit(40)]
    fn report_order(&self) -> (order: Vec<usize>)
        ensures
            is_report_order(self@, order@.map_values(|x: usize| x as int)),
    {
        let ghost d = self.diagnostics@;
        let n = self.diagnostics.len();
        let mut order: Vec<usize> = Vec::new();
        let mut i: usize = 0;
        while i < n
            invariant
                n == d.len(),
                d == self.diagnostics@,
                i <= n,
                order@.len() == i,
                forall|k: int| 0 <= k < i ==> #[trigger] order@[k] < i,
                forall|a: int, b: int| 0 <= a < b < i ==> order@[a] != order@[b],
                forall|k: int| 0 <= k < i - 1 ==> diag_order(d[#[trigger] order@[k] as int], d[order@[k + 1] as int]) <= 0,
                forall|k: int| 0 <= k < i - 1 && diag_order(d[#[trigger] order@[k] as int], d[order@[k + 1] as int]) == 0
                    ==> order@[k] < order@[k + 1],
            decreases n - i,
        {
            let mut pos = order.len();
            while pos > 0 && order_diag(&self.diagnostics[i], &self.diagnostics[order[pos - 1]]) < 0
                invariant
                    n == d.len(),
                    d == self.diagnostics@,
                    i < n,
                    order@.len() == i,
                    pos <= i,
                    forall|k: int| 0 <= k < i ==> #[trigger] order@[k] < i,
                    forall|q: int| pos <= q < i ==> diag_order(d[i as int], d[#[trigger] order@[q] as int]) < 0,
                decreases pos,
            {
                pos -= 1;
            }
            proof {
                if pos > 0 {
                    lemma_diag_order_antisym(d[i as int], d[order@[pos - 1] as int]);
                }
                if pos < i {
                    lemma_diag_order_antisym(d[i as int], d[order@[pos as int] as int]);
                }
            }
            let ghost old_order = order@;
            order.insert(pos, i);
            assert(order@ == old_order.insert(pos as int, i));
            assert forall|k: int| 0 <= k < i + 1 implies #[trigger] order@[k] < i + 1 by {
                if k < pos {
                    assert(order@[k] == old_order[k]);
                } else if k > pos {
                    assert(order@[k] == old_order[k - 1]);
                }
            }
            assert forall|a: int, b: int| 0 <= a < b < i + 1 implies order@[a] != order@[b] by {
                if a < pos && b < pos {
                } else if a < pos && b == pos {
                    assert(old_order[a] < i);
                } else if a < pos {
                    assert(order@[b] == old_order[b - 1]);
                } else if a == pos {
                    assert(order@[b] == old_order[b - 1]);
                    assert(old_order[b - 1] < i);
                } else {
                    assert(order@[a] == old_order[a - 1]);
                    assert(order@[b] == old_order[b - 1]);
                }
            }
            assert forall|k: int| 0 <= k < i as int implies
                diag_order(d[#[trigger] order@[k] as int], d[order@[k + 1] as int]) <= 0
                && (diag_order(d[order@[k] as int], d[order@[k + 1] as int]) == 0 ==> order@[k] < order@[k + 1]) by {
                if k + 1 < pos {
                    assert(order@[k] == old_order[k]);
                    assert(order@[k + 1] == old_order[k + 1]);
                } else if k + 1 == pos {
                    assert(order@[k] == old_order[k]);
                    assert(old_order[k] < i);
                } else if k == pos {
                    assert(order@[k + 1] == old_order[k]);
                } else {
                    assert(order@[k] == old_order[k - 1]);
                    assert(order@[k + 1] == old_order[k]);
                }
            }
            i += 1;
        }
        let ghost p = order@.map_values(|x: usize| x as int);
        assert forall|k: int| 0 <= k < p.len() implies 0 <= #[trigger] p[k] < d.len() by {
            assert(p[k] == order@[k] as int);
        }
        assert forall|a: int, b: int| 0 <= a < b < p.len() implies p[a] != p[b] by {
            assert(p[a] == order@[a] as int);
            assert(p[b] == order@[b] as int);
        }
        assert forall|k: int| 0 <= k < p.len() - 1 implies diag_order(d[#[trigger] p[k]], d[p[k + 1]]) <= 0
            && (diag_order(d[p[k]], d[p[k + 1]]) == 0 ==> p[k] < p[k + 1]) by {
            assert(p[k] == order@[k] as int);
            assert(p[k + 1] == order@[k + 1] as int);
        }
        order
    }

    /// Returns the total number of diagnostics.
    pub fn len(&self) -> (n: usize)
        ensures
            n == self@.len(),
    {
        self.diagnostics.len()
    }

    /// Returns `true` if no diagnostics have been recorded.
    pub fn is_empty(&self) -> (b: bool)
        ensures
            b == (self@.len() == 0),
    {
        self.diagnostics.len() == 0
    }

    /// Returns all diagnostics as a slice.
    pub fn all(&self) -> (s: &[Diagnostic])
        ensures
            s@ == self@,
    {
        self.diagnostics.as_slice()
    }
}

/// Compares two diagnostics in reporting order.
fn order_diag(a: &Diagnostic, b: &Diagnostic) -> (r: i8)
    ensures
        r == diag_order(*a, *b),
{
    let fa = chars_of(a.span.file.as_str());
    let fb = chars_of(b.span.file.as_str());
    let f = compare_chars(&fa, &fb);
    if f != 0 {
        f
    } else if a.span.start_line != b.span.start_line {
        if a.span.start_line < b.span.start_line { -1 } else { 1 }
    } else if a.span.start_col != b.span.start_col {
        if a.span.start_col < b.span.start_col { -1 } else { 1 }
    } else {
        let ra = severity_rank_exec(a.severity);
        let rb = severity_rank_exec(b.severity);
        if ra < rb {
            -1
        } else if ra > rb {
            1
        } else {
            0
        }
    }
}

proof fn lemma_diag_order_antisym(a: Diagnostic, b: Diagnostic)
    ensures
        diag_order(a, b) == -diag_order(b, a),
{
    lemma_lex_order_antisym(a.span.file@, b.span.file@);
}

} // verus!
