//! PARSE — source text to per-file syntax trees.
//!
//! The parser is line-oriented: the source is split into lines once, and
//! every node parser reads the line at `current_line`, builds its node and
//! moves past the lines it consumed. Errors produce `ErrorNode` markers
//! and diagnostics; the parser never aborts.
//!
//! Diagnostic code range: URD100–URD199

use vstd::prelude::*;
use crate::span::{Span, SpanV, span_view};
use crate::diagnostics::{appended, lemma_appended_empty, DiagnosticCollector, PlainDiag, Severity};
use crate::graph::MAX_FILE_SIZE;
use crate::text::{
    chars_of, decimal, decimal_chars, find_seq, find_str, push_chars, push_str, slice_chars,
    split_chars, split_on, string_from_chars, trim_end, trim_end_chars, views,
};
pub use crate::content::parse;

verus! {

broadcast use vstd::string::group_string_axioms;

// ── Byte lengths ──

/// The number of bytes of the UTF-8 encoding of `c`.
pub open spec fn char_width(c: char) -> nat {
    if (c as u32) < 0x80 {
        1
    } else if (c as u32) < 0x800 {
        2
    } else if (c as u32) < 0x10000 {
        3
    } else {
        4
    }
}

/// The number of bytes of the UTF-8 encoding of `s`.
pub open spec fn utf8_len(s: Seq<char>) -> nat
    decreases s.len(),
{
    if s.len() == 0 { 0 } else { utf8_len(s.drop_last()) + char_width(s.last()) }
}

pub proof fn lemma_utf8_len_bound(s: Seq<char>)
    ensures
        s.len() <= utf8_len(s) <= 4 * s.len(),
    decreases s.len(),
{
    if s.len() > 0 {
        lemma_utf8_len_bound(s.drop_last());
    }
}

fn char_width_exec(c: char) -> (w: usize)
    ensures
        w == char_width(c),
{
    let u = c as u32;
    if u < 0x80 {
        1
    } else if u < 0x800 {
        2
    } else if u < 0x10000 {
        3
    } else {
        4
    }
}

/// The byte length of the UTF-8 encoding of `v`.
pub fn utf8_len_chars(v: &Vec<char>) -> (n: usize)
    requires
        v@.len() <= 4 * MAX_FILE_SIZE,
    ensures
        n == utf8_len(v@),
{
    let mut n: usize = 0;
    let mut k: usize = 0;
    while k < v.len()
        invariant
            k <= v.len() <= 4 * MAX_FILE_SIZE,
            n == utf8_len(v@.take(k as int)),
            n <= 4 * k,
        decreases v.len() - k,
    {
        proof {
            assert(v@.take(k + 1).drop_last() =~= v@.take(k as int));
        }
        n = n + char_width_exec(v[k]);
        k += 1;
    }
    assert(v@.take(v.len() as int) =~= v@);
    n
}

// ── Lines ──

/// A source line without its trailing `\r`.
pub open spec fn strip_cr(l: Seq<char>) -> Seq<char> {
    if l.len() > 0 && l.last() == '\r' { l.drop_last() } else { l }
}

/// The lines of a source: the pieces between `\n`s, each without a
/// trailing `\r`.
pub open spec fn lines_of(src: Seq<char>) -> Seq<Seq<char>> {
    split_on(src, '\n').map_values(|l: Seq<char>| strip_cr(l))
}

/// Pre-computed information about a source line.
#[derive(Debug)]
pub struct LineInfo {
    /// The raw line text (without trailing newline).
    pub text: Vec<char>,
    /// 1-indexed line number.
    pub line_number: u32,
}

/// Line-oriented parser state.
pub struct Parser {
    pub file_path: String,
    pub lines: Vec<LineInfo>,
    pub current_line: usize,
    /// Set when a line could not be sliced where the grammar cuts it: a
    /// diagnostic quote whose cut at byte 57 falls inside a character, or
    /// a `selects` line whose ` from ` comes before the variable. The
    /// parse is then not to be relied on, and callers report a failure.
    pub slice_fault: bool,
}

pub open spec fn line_texts(ls: Seq<LineInfo>) -> Seq<Seq<char>> {
    ls.map_values(|l: LineInfo| l.text@)
}

/// Lines numbered from 1 in order, each short enough for its byte
/// columns to fit a `u32`.
pub open spec fn lines_wf(ls: Seq<LineInfo>) -> bool {
    &&& ls.len() <= MAX_FILE_SIZE + 1
    &&& forall|i: int| 0 <= i < ls.len() ==> (#[trigger] ls[i]).line_number == i + 1
    &&& forall|i: int| 0 <= i < ls.len() ==> (#[trigger] ls[i]).text@.len() <= MAX_FILE_SIZE
}

impl Parser {
    pub open spec fn wf(&self) -> bool {
        &&& lines_wf(self.lines@)
        &&& self.current_line <= self.lines@.len()
    }

    /// The parser reads the same source and differs at most in its position.
    pub open spec fn same_source(&self, other: Parser) -> bool {
        &&& self.lines@ == other.lines@
        &&& self.file_path@ == other.file_path@
    }

    /// Start parsing `source` (of at most `MAX_FILE_SIZE` characters) at its first line.
    pub fn new(file_path: &str, source: &str) -> (p: Self)
        requires
            source@.len() <= MAX_FILE_SIZE,
        ensures
            p.wf(),
            p.file_path@ == file_path@,
            line_texts(p.lines@) == lines_of(source@),
            p.current_line == 0,
            !p.slice_fault,
    {
        let lines = Self::split_lines(source);
        Parser { file_path: string_from_chars(chars_of(file_path)), lines, current_line: 0, slice_fault: false }
    }

    /// Split source into lines, numbering them from 1.
    pub fn split_lines(source: &str) -> (lines: Vec<LineInfo>)
        requires
            source@.len() <= MAX_FILE_SIZE,
        ensures
            lines_wf(lines@),
            line_texts(lines@) == lines_of(source@),
    {
        let v = chars_of(source);
        let pieces = split_chars(&v, '\n');
        let ghost ps = views(pieces@);
        proof { lemma_split_len(v@, '\n'); }
        let mut lines: Vec<LineInfo> = Vec::new();
        let mut i: usize = 0;
        while i < pieces.len()
            invariant
                ps == views(pieces@),
                ps == split_on(source@, '\n'),
                ps.len() == pieces@.len() <= source@.len() + 1,
                source@.len() <= MAX_FILE_SIZE,
                forall|j: int| 0 <= j < ps.len() ==> (#[trigger] ps[j]).len() <= source@.len(),
                i <= pieces.len(),
                lines@.len() == i,
                forall|j: int| 0 <= j < i ==> (#[trigger] lines@[j]).line_number == j + 1,
                forall|j: int| 0 <= j < i ==> (#[trigger] lines@[j]).text@ == strip_cr(ps[j]),
            decreases pieces.len() - i,
        {
            let piece = &pieces[i];
            assert(piece@ == ps[i as int]);
            let text = if piece.len() > 0 && piece[piece.len() - 1] == '\r' {
                slice_chars(piece, 0, piece.len() - 1)
            } else {
                slice_chars(piece, 0, piece.len())
            };
            proof {
                if piece.len() > 0 && piece@.last() == '\r' {
                    assert(text@ =~= piece@.drop_last());
                } else {
                    assert(text@ =~= piece@);
                }
            }
            lines.push(LineInfo { text, line_number: (i + 1) as u32 });
            i += 1;
        }
        proof {
            assert(line_texts(lines@) =~= lines_of(source@));
        }
        lines
    }
}

proof fn lemma_split_len(s: Seq<char>, c: char)
    ensures
        split_on(s, c).len() <= s.len() + 1,
        forall|j: int| 0 <= j < split_on(s, c).len() ==> (#[trigger] split_on(s, c)[j]).len() <= s.len(),
    decreases s.len(),
{
    if s.len() > 0 {
        lemma_split_len(s.drop_last(), c);
        crate::text::lemma_split_on_nonempty(s.drop_last(), c);
    }
}

// ── Spans ──

/// The number of leading spaces of `s`.
pub open spec fn lead_spaces(s: Seq<char>) -> nat
    decreases s.len(),
{
    if s.len() > 0 && s[0] == ' ' { 1 + lead_spaces(s.drop_first()) } else { 0 }
}

pub proof fn lemma_lead_spaces(s: Seq<char>)
    ensures
        lead_spaces(s) <= s.len(),
        forall|j: int| 0 <= j < lead_spaces(s) ==> #[trigger] s[j] == ' ',
        lead_spaces(s) < s.len() ==> s[lead_spaces(s) as int] != ' ',
    decreases s.len(),
{
    if s.len() > 0 && s[0] == ' ' {
        lemma_lead_spaces(s.drop_first());
        assert forall|j: int| 0 <= j < lead_spaces(s) implies #[trigger] s[j] == ' ' by {
            if j > 0 {
                assert(s[j] == s.drop_first()[j - 1]);
            }
        }
    }
}

fn lead_spaces_exec(v: &Vec<char>) -> (n: usize)
    ensures
        n == lead_spaces(v@),
{
    proof { lemma_lead_spaces(v@); }
    let mut n: usize = 0;
    while n < v.len() && v[n] == ' '
        invariant
            n <= v.len(),
            n <= lead_spaces(v@) <= v@.len(),
            lead_spaces(v@) < v@.len() ==> v@[lead_spaces(v@) as int] != ' ',
            forall|j: int| 0 <= j < lead_spaces(v@) ==> #[trigger] v@[j] == ' ',
        decreases v.len() - n,
    {
        n += 1;
    }
    proof {
        if n < lead_spaces(v@) {
            assert(v@[n as int] == ' ');
        }
    }
    n
}

/// The span of a whole line, from column 1.
pub open spec fn line_span_v(file: Seq<char>, l: LineInfo) -> SpanV {
    (file, l.line_number, 1, l.line_number, (utf8_len(l.text@) + 1) as u32)
}

/// The span of a line's content, from after its indenting spaces.
pub open spec fn content_line_span_v(file: Seq<char>, l: LineInfo) -> SpanV {
    (file, l.line_number, (lead_spaces(l.text@) + 1) as u32, l.line_number, (utf8_len(l.text@) + 1) as u32)
}

/// The span of lines `a` through `b`, from column 1.
pub open spec fn span_lines_v(file: Seq<char>, a: LineInfo, b: LineInfo) -> SpanV {
    (file, a.line_number, 1, b.line_number, (utf8_len(b.text@) + 1) as u32)
}

/// The span of lines `a` through `b`, from after the indenting spaces of `a`.
pub open spec fn content_span_lines_v(file: Seq<char>, a: LineInfo, b: LineInfo) -> SpanV {
    (file, a.line_number, (lead_spaces(a.text@) + 1) as u32, b.line_number, (utf8_len(b.text@) + 1) as u32)
}

impl Parser {
    proof fn lemma_line_bounds(&self, idx: int)
        requires
            self.wf(),
            0 <= idx < self.lines@.len(),
        ensures
            utf8_len(self.lines@[idx].text@) + 1 <= u32::MAX,
            lead_spaces(self.lines@[idx].text@) + 1 <= u32::MAX,
            self.lines@[idx].line_number == idx + 1,
    {
        let t = self.lines@[idx].text@;
        lemma_utf8_len_bound(t);
        lemma_lead_spaces(t);
        assert(self.lines@[idx].text@.len() <= MAX_FILE_SIZE);
    }

    /// Create a span for a full line (from column 1).
    pub fn line_span(&self, line_idx: usize) -> (s: Span)
        requires
            self.wf(),
            line_idx < self.lines@.len(),
        ensures
            span_view(s) == line_span_v(self.file_path@, self.lines@[line_idx as int]),
    {
        proof { self.lemma_line_bounds(line_idx as int); }
        let info = &self.lines[line_idx];
        let len = utf8_len_chars(&info.text);
        Span::new(self.file_path.clone(), info.line_number, 1, info.line_number, (len as u32) + 1)
    }

    /// Create a span for a content line, starting after structural indent spaces.
    /// Only skips SPACE characters (structural indent). Tabs are error characters
    /// and are included in the span: the span reflects the original bytes.
    pub fn content_line_span(&self, line_idx: usize) -> (s: Span)
        requires
            self.wf(),
            line_idx < self.lines@.len(),
        ensures
            span_view(s) == content_line_span_v(self.file_path@, self.lines@[line_idx as int]),
    {
        proof { self.lemma_line_bounds(line_idx as int); }
        let info = &self.lines[line_idx];
        let leading = lead_spaces_exec(&info.text);
        let len = utf8_len_chars(&info.text);
        Span::new(self.file_path.clone(), info.line_number, (leading as u32) + 1, info.line_number, (len as u32) + 1)
    }

    /// Create a span covering a range of columns on a single line.
    pub fn span_on_line(&self, line_idx: usize, start_col: u32, end_col: u32) -> (s: Span)
        requires
            line_idx < self.lines@.len(),
        ensures
            span_view(s) == (self.file_path@, self.lines@[line_idx as int].line_number, start_col,
                self.lines@[line_idx as int].line_number, end_col),
    {
        let info = &self.lines[line_idx];
        Span::new(self.file_path.clone(), info.line_number, start_col, info.line_number, end_col)
    }

    /// Create a span covering multiple lines (from column 1).
    pub fn span_lines(&self, start_line: usize, end_line: usize) -> (s: Span)
        requires
            self.wf(),
            start_line < self.lines@.len(),
            end_line < self.lines@.len(),
        ensures
            span_view(s) == span_lines_v(self.file_path@, self.lines@[start_line as int],
                self.lines@[end_line as int]),
    {
        proof { self.lemma_line_bounds(end_line as int); }
        let start = &self.lines[start_line];
        let end = &self.lines[end_line];
        let len = utf8_len_chars(&end.text);
        Span::new(self.file_path.clone(), start.line_number, 1, end.line_number, (len as u32) + 1)
    }

    /// Create a span covering multiple lines, starting after structural indent spaces
    /// on the start line. Only skips SPACE characters (not tabs).
    pub fn content_span_lines(&self, start_line: usize, end_line: usize) -> (s: Span)
        requires
            self.wf(),
            start_line < self.lines@.len(),
            end_line < self.lines@.len(),
        ensures
            span_view(s) == content_span_lines_v(self.file_path@, self.lines@[start_line as int],
                self.lines@[end_line as int]),
    {
        proof {
            self.lemma_line_bounds(start_line as int);
            self.lemma_line_bounds(end_line as int);
        }
        let start = &self.lines[start_line];
        let end = &self.lines[end_line];
        let leading = lead_spaces_exec(&start.text);
        let len = utf8_len_chars(&end.text);
        Span::new(self.file_path.clone(), start.line_number, (leading as u32) + 1, end.line_number, (len as u32) + 1)
    }

    /// Check if we've consumed all lines.
    pub fn at_end(&self) -> (b: bool)
        ensures
            b == (self.current_line >= self.lines@.len()),
    {
        self.current_line >= self.lines.len()
    }

    /// Peek at the current line text without advancing.
    pub fn peek_line(&self) -> (l: Option<&Vec<char>>)
        ensures
            match l {
                Some(t) => self.current_line < self.lines@.len() && *t == self.lines@[self.current_line as int].text,
                None => self.current_line >= self.lines@.len(),
            },
    {
        if self.current_line < self.lines.len() {
            Some(&self.lines[self.current_line].text)
        } else {
            None
        }
    }

    /// Advance to the next line and return the current line's text.
    pub fn advance_line(&mut self) -> (l: Option<Vec<char>>)
        ensures
            final(self).same_source(*old(self)),
            final(self).slice_fault == old(self).slice_fault,
            match l {
                Some(t) => old(self).current_line < old(self).lines@.len()
                    && t@ == old(self).lines@[old(self).current_line as int].text@
                    && final(self).current_line == old(self).current_line + 1,
                None => old(self).current_line >= old(self).lines@.len()
                    && final(self).current_line == old(self).current_line,
            },
    {
        if self.at_end() {
            return None;
        }
        assert(self.current_line < self.lines.len());
        let text = slice_chars(&self.lines[self.current_line].text, 0, self.lines[self.current_line].text.len());
        assert(text@ =~= self.lines@[self.current_line as int].text@);
        self.current_line += 1;
        Some(text)
    }
}

// ── Tabs ──

/// A line with its tabs replaced: two spaces for a tab in the indentation
/// (before the first character that is neither a space nor a tab), one
/// space for a tab elsewhere.
pub open spec fn detab_from(s: Seq<char>, at_indent: bool) -> Seq<char>
    decreases s.len(),
{
    if s.len() == 0 {
        s
    } else if s[0] == '\t' {
        (if at_indent { "  "@ } else { " "@ }) + detab_from(s.drop_first(), at_indent)
    } else {
        seq![s[0]] + detab_from(s.drop_first(), at_indent && s[0] == ' ')
    }
}

pub open spec fn detab(s: Seq<char>) -> Seq<char> {
    detab_from(s, true)
}

pub open spec fn msg_tab(line: nat, col: nat) -> Seq<char> {
    "Tab character found at line "@ + decimal(line) + ", column "@ + decimal(col)
        + ". Use exactly two spaces per indent level."@
}

/// The URD102 errors for the tabs among the first `n` characters of a
/// line, in order; each points at the tab's byte column.
pub open spec fn tab_reports_upto(file: Seq<char>, l: LineInfo, n: int) -> Seq<PlainDiag>
    decreases n,
{
    if n <= 0 {
        Seq::empty()
    } else {
        let prev = tab_reports_upto(file, l, n - 1);
        if l.text@[n - 1] == '\t' {
            let col = (utf8_len(l.text@.take(n - 1)) + 1) as u32;
            prev.push((Severity::Error, "URD102"@, msg_tab(l.line_number as nat, col as nat),
                (file, l.line_number, col, l.line_number, (col + 1) as u32)))
        } else {
            prev
        }
    }
}

/// The URD102 errors for every tab of a line.
pub open spec fn tab_reports(file: Seq<char>, l: LineInfo) -> Seq<PlainDiag> {
    tab_reports_upto(file, l, l.text@.len() as int)
}

impl Parser {
    /// Scan tabs on a line, emitting URD102 for each tab found.
    /// Returns the line text with tabs replaced appropriately.
    pub fn check_tabs(&self, line_idx: usize, diagnostics: &mut DiagnosticCollector) -> (out: Vec<char>)
        requires
            self.wf(),
            line_idx < self.lines@.len(),
        ensures
            out@ == detab(self.lines@[line_idx as int].text@),
            appended(final(diagnostics)@, old(diagnostics)@,
                tab_reports(self.file_path@, self.lines@[line_idx as int])),
    {
        proof { self.lemma_line_bounds(line_idx as int); }
        let info = &self.lines[line_idx];
        let text = &info.text;
        let ghost l = self.lines@[line_idx as int];
        let ghost file = self.file_path@;
        let ghost start = diagnostics@;
        proof {
            lemma_appended_empty(diagnostics@);
            assert(text@.skip(0) =~= text@);
        }
        let mut result: Vec<char> = Vec::new();
        let mut at_indent = true;
        let mut byte_pos: usize = 0;
        let mut k: usize = 0;
        while k < text.len()
            invariant
                line_idx < self.lines@.len(),
                *info == l,
                *text == l.text,
                l == self.lines@[line_idx as int],
                file == self.file_path@,
                utf8_len(text@) + 1 <= u32::MAX,
                k <= text@.len(),
                byte_pos == utf8_len(text@.take(k as int)),
                result@ + detab_from(text@.skip(k as int), at_indent) == detab(text@),
                appended(diagnostics@, start, tab_reports_upto(file, l, k as int)),
            decreases text.len() - k,
        {
            let ch = text[k];
            let ghost rest = text@.skip(k as int);
            let ghost before = result@;
            proof {
                reveal_strlit("  ");
                reveal_strlit(" ");
                assert(rest[0] == ch);
                assert(rest.drop_first() =~= text@.skip(k + 1));
                assert(text@.take(k + 1).drop_last() =~= text@.take(k as int));
                lemma_utf8_prefix_le(text@, k + 1);
            }
            if ch == '\t' {
                let col = (byte_pos as u32) + 1;
                let mut m = chars_of("Tab character found at line ");
                let ln = decimal_chars(info.line_number as u64);
                push_chars(&mut m, &ln);
                push_str(&mut m, ", column ");
                let cs = decimal_chars(col as u64);
                push_chars(&mut m, &cs);
                push_str(&mut m, ". Use exactly two spaces per indent level.");
                let ghost mid = diagnostics@;
                diagnostics.error(
                    "URD102",
                    string_from_chars(m),
                    Span::new(self.file_path.clone(), info.line_number, col, info.line_number, col + 1),
                );
                proof {
                    assert(diagnostics@.take(mid.len() as int) == mid);
                    let added = seq![(Severity::Error, "URD102"@, msg_tab(l.line_number as nat, col as nat),
                        (file, l.line_number, col, l.line_number, (col + 1) as u32))];
                    assert(appended(diagnostics@, mid, added)) by {
                        assert(diagnostics@[mid.len() as int] == diagnostics@.last());
                        assert(diagnostics@.last().message@ == msg_tab(l.line_number as nat, col as nat));
                        assert(span_view(diagnostics@.last().span) == (file, l.line_number, col, l.line_number, (col + 1) as u32));
                    }
                    crate::diagnostics::lemma_appended_trans(start, mid, diagnostics@,
                        tab_reports_upto(file, l, k as int), added);
                    assert(tab_reports_upto(file, l, k as int) + added =~= tab_reports_upto(file, l, k + 1));
                }
                if at_indent {
                    result.push(' ');
                    result.push(' ');
                    proof {
                        assert(result@ + detab_from(text@.skip(k + 1), at_indent)
                            =~= before + ("  "@ + detab_from(rest.drop_first(), at_indent)));
                    }
                } else {
                    result.push(' ');
                    proof {
                        assert(result@ + detab_from(text@.skip(k + 1), at_indent)
                            =~= before + (" "@ + detab_from(rest.drop_first(), at_indent)));
                    }
                }
            } else {
                let ghost was = at_indent;
                if ch != ' ' {
                    at_indent = false;
                }
                result.push(ch);
                proof {
                    assert(at_indent == (was && ch == ' '));
                    assert(result@ + detab_from(text@.skip(k + 1), at_indent)
                        =~= before + (seq![ch] + detab_from(rest.drop_first(), at_indent)));
                    assert(tab_reports_upto(file, l, k + 1) == tab_reports_upto(file, l, k as int));
                }
            }
            byte_pos = byte_pos + char_width_exec(ch);
            k += 1;
        }
        proof {
            assert(text@.skip(text@.len() as int).len() == 0);
            assert(result@ + Seq::<char>::empty() =~= result@);
        }
        result
    }
}

proof fn lemma_utf8_prefix_le(s: Seq<char>, n: int)
    requires
        0 <= n <= s.len(),
    ensures
        utf8_len(s.take(n)) <= utf8_len(s),
    decreases s.len() - n,
{
    if n < s.len() {
        lemma_utf8_prefix_le(s, n + 1);
        assert(s.take(n + 1).drop_last() =~= s.take(n));
    } else {
        assert(s.take(n) =~= s);
    }
}

/// Count indent level (number of 2-space indents) from the start of a line.
/// Returns (indent_level, rest_of_line).
pub fn measure_indent(line: &Vec<char>) -> (r: (usize, Vec<char>))
    ensures
        r.0 == lead_spaces(line@) / 2,
        r.1@ == line@.skip(lead_spaces(line@) as int),
{
    let spaces = lead_spaces_exec(line);
    proof { lemma_lead_spaces(line@); }
    let rest = slice_chars(line, spaces, line.len());
    assert(rest@ =~= line@.skip(spaces as int));
    (spaces / 2, rest)
}

/// Text without its inline comment: everything from the first ` //` on is
/// dropped, and so is the white space before it.
pub open spec fn strip_comment(t: Seq<char>) -> Seq<char> {
    match find_seq(t, " //"@) {
        Some(pos) => trim_end(t.take(pos)),
        None => t,
    }
}

/// Strip inline comments from text content.
/// Returns the text with any trailing ` // comment` removed and trimmed.
pub fn strip_inline_comment(text: &Vec<char>) -> (out: Vec<char>)
    ensures
        out@ == strip_comment(text@),
{
    proof { crate::text::lemma_find_seq(text@, " //"@); }
    match find_str(text, " //") {
        Some(pos) => {
            let head = slice_chars(text, 0, pos);
            assert(head@ =~= text@.take(pos as int));
            trim_end_chars(&head)
        },
        None => slice_chars(text, 0, text.len()),
    }
}

} // verus!
