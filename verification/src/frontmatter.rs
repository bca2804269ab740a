//! Frontmatter text helpers: the restricted YAML-like syntax between
//! `---` delimiters — flow lists, top-level splitting, and the YAML
//! constructs that are rejected with an explanation.

use vstd::prelude::*;
use crate::diagnostics::{appended, lemma_appended_empty, lemma_appended_trans, DiagnosticCollector, PlainDiag, Severity};
use crate::parse::{line_span_v, span_lines_v, LineInfo, Parser};
use crate::text::{
    chars_end_with, chars_of, chars_start_with, ends_with, find_char, find_seq, find_str, first_char_index,
    is_alphanumeric, slice_chars, starts_with, string_from_chars, trim, trim_chars, unicode_alphanumeric,
    lemma_first_char_index, spec_parse_i64, parse_i64, is_float_text, is_float_literal, views, split_on,
    split_chars,
};
use crate::ast::{
    Scalar, ScalarV, scalar_view, strings_view, pairs_view, opt_scalar_view, PropertyDef, PropDefV, prop_def_view,
    EntityDecl, EntityDeclV, entity_decl_view, TypeDef, TypeDefV, type_def_view, EntryV, ValueV, FrontmatterEntry,
    FrontmatterValue, WorldBlock, ImportDecl, Frontmatter, entries_view, entry_view, value_view, values_view,
    lemma_entries_view_push, lemma_values_view_push,
};
use crate::text::{decimal, decimal_chars, unicode_uppercase, is_uppercase};
use crate::span::{Span, SpanV, span_view};
use crate::content::{proc_line, tabs};
use crate::parse::{utf8_len, lead_spaces};
use crate::text::{leading_white, last_char_index, lemma_last_char_index, rfind_char, trim_start, lemma_trim_start};

verus! {

broadcast use vstd::string::group_string_axioms;

// ── Top-level splitting ──

/// The state of a left-to-right scan that splits at top-level delimiters:
/// the pieces so far, the current piece, bracket depth, and the open quote.
pub type SplitState = (Seq<Seq<char>>, Seq<char>, int, Option<char>);

pub open spec fn split_step(st: SplitState, ch: char, delim: char) -> SplitState {
    let (done, cur, depth, quote) = st;
    match quote {
        Some(q) => (done, cur.push(ch), depth, if ch == q { None } else { Some(q) }),
        None => {
            if ch == '"' || ch == '\'' {
                (done, cur.push(ch), depth, Some(ch))
            } else if ch == '(' || ch == '[' || ch == '{' {
                (done, cur.push(ch), depth + 1, None)
            } else if ch == ')' || ch == ']' || ch == '}' {
                (done, cur.push(ch), depth - 1, None)
            } else if ch == delim && depth == 0 {
                (done.push(cur), Seq::empty(), depth, None)
            } else {
                (done, cur.push(ch), depth, None)
            }
        },
    }
}

pub open spec fn split_scan(s: Seq<char>, delim: char) -> SplitState
    decreases s.len(),
{
    if s.len() == 0 {
        (Seq::empty(), Seq::empty(), 0, None)
    } else {
        split_step(split_scan(s.drop_last(), delim), s.last(), delim)
    }
}

/// The pieces of `s` between delimiters that stand outside quotes and
/// brackets; a trailing empty piece is dropped.
pub open spec fn split_top(s: Seq<char>, delim: char) -> Seq<Seq<char>> {
    let st = split_scan(s, delim);
    if st.1.len() > 0 { st.0.push(st.1) } else { st.0 }
}

proof fn lemma_split_scan_depth(s: Seq<char>, delim: char)
    ensures
        -(s.len() as int) <= split_scan(s, delim).2 <= s.len(),
    decreases s.len(),
{
    if s.len() > 0 {
        lemma_split_scan_depth(s.drop_last(), delim);
    }
}

/// Split a string by a delimiter, respecting nested brackets and quotes.
pub fn split_top_level(s: &Vec<char>, delimiter: char) -> (out: Vec<Vec<char>>)
    ensures
        crate::text::views(out@) == split_top(s@, delimiter),
{
    let mut result: Vec<Vec<char>> = Vec::new();
    let mut current: Vec<char> = Vec::new();
    let mut depth: i128 = 0;
    let mut in_quotes = false;
    let mut quote_char = '"';
    let mut k: usize = 0;
    assert(s@.len() == s.len());
    while k < s.len()
        invariant
            k <= s@.len(),
            s@.len() <= usize::MAX,
            ({
                let st = split_scan(s@.take(k as int), delimiter);
                &&& crate::text::views(result@) == st.0
                &&& current@ == st.1
                &&& depth == st.2
                &&& st.3 == (if in_quotes { Some(quote_char) } else { None })
            }),
            -(k as int) <= depth <= k,
        decreases s.len() - k,
    {
        let ch = s[k];
        proof {
            assert(s@.take(k + 1).drop_last() =~= s@.take(k as int));
            assert(s@.take(k + 1).last() == ch);
        }
        let ghost before = result@;
        if in_quotes {
            current.push(ch);
            if ch == quote_char {
                in_quotes = false;
            }
        } else if ch == '"' || ch == '\'' {
            in_quotes = true;
            quote_char = ch;
            current.push(ch);
        } else if ch == '(' || ch == '[' || ch == '{' {
            depth = depth + 1;
            current.push(ch);
        } else if ch == ')' || ch == ']' || ch == '}' {
            depth = depth - 1;
            current.push(ch);
        } else if ch == delimiter && depth == 0 {
            let piece = current;
            result.push(piece);
            current = Vec::new();
            proof {
                assert(crate::text::views(result@) =~= crate::text::views(before).push(piece@));
            }
        } else {
            current.push(ch);
        }
        k += 1;
    }
    proof {
        assert(s@.take(s@.len() as int) =~= s@);
    }
    if current.len() > 0 {
        let ghost before = result@;
        let last = current;
        result.push(last);
        proof {
            assert(crate::text::views(result@) =~= crate::text::views(before).push(last@));
        }
    }
    result
}

/// The items of a flow-style list `[a, b, c]`: the trimmed, non-empty
/// top-level pieces between its brackets.
pub open spec fn flow_items(pieces: Seq<Seq<char>>) -> Seq<Seq<char>>
    decreases pieces.len(),
{
    if pieces.len() == 0 {
        Seq::empty()
    } else {
        let prev = flow_items(pieces.drop_last());
        let t = trim(pieces.last());
        if t.len() > 0 { prev.push(t) } else { prev }
    }
}

pub open spec fn flow_list(s: Seq<char>) -> Seq<Seq<char>> {
    flow_items(split_top(crate::content::unbracket(trim(s)), ','))
}

/// Parse a flow-style list: `[a, b, c]`.
pub fn parse_flow_list(s: &Vec<char>) -> (items: Vec<String>)
    ensures
        crate::ast::strings_view(items@) == flow_list(s@),
{
    let t = trim_chars(s);
    proof {
        reveal_strlit("[");
        reveal_strlit("]");
    }
    let inner = if chars_start_with(&t, "[") && chars_end_with(&t, "]") && t.len() >= 2 {
        slice_chars(&t, 1, t.len() - 1)
    } else {
        slice_chars(&t, 0, t.len())
    };
    proof {
        if !(starts_with(t@, "["@) && ends_with(t@, "]"@) && t@.len() >= 2) {
            assert(inner@ =~= t@);
        }
    }
    let pieces = split_top_level(&inner, ',');
    let ghost ps = crate::text::views(pieces@);
    let mut items: Vec<String> = Vec::new();
    let mut i: usize = 0;
    proof { assert(ps.take(0) =~= Seq::<Seq<char>>::empty()); }
    while i < pieces.len()
        invariant
            ps == crate::text::views(pieces@),
            ps == split_top(inner@, ','),
            i <= pieces@.len(),
            crate::ast::strings_view(items@) == flow_items(ps.take(i as int)),
        decreases pieces.len() - i,
    {
        proof {
            assert(ps.take(i + 1).drop_last() =~= ps.take(i as int));
            assert(ps.take(i + 1).last() == pieces@[i as int]@);
        }
        let t = trim_chars(&pieces[i]);
        if t.len() > 0 {
            let ghost before = items@;
            items.push(string_from_chars(t));
            proof {
                assert(crate::ast::strings_view(items@) =~= crate::ast::strings_view(before).push(t@));
            }
        }
        i += 1;
    }
    proof { assert(ps.take(pieces@.len() as int) =~= ps); }
    items
}

// ── Rejected YAML constructs ──

pub open spec fn has_seq(s: Seq<char>, p: Seq<char>) -> bool {
    find_seq(s, p) is Some
}

/// A character that can start a YAML anchor or alias name.
pub open spec fn name_start(c: char) -> bool {
    unicode_alphanumeric(c) || c == '_'
}

/// The YAML construct a trimmed frontmatter line uses that Urd rejects,
/// as its code and explanation, checked in this order: anchors, aliases,
/// merge keys, custom tags, block-style lists.
pub open spec fn yaml_rejection(t: Seq<char>) -> Option<(Seq<char>, Seq<char>)> {
    let amp = first_char_index(t, '&');
    let anchor = amp is Some && !has_seq(t, "&&"@) && {
        let pos = amp.unwrap();
        let after = t.skip(pos + 1);
        let before = t.take(pos);
        &&& after.len() > 0
        &&& name_start(after[0])
        &&& (before.len() == 0 || ends_with(before, " "@) || ends_with(before, ":"@))
    };
    let alias = starts_with(t, "*"@) && !starts_with(t, "* "@) && !starts_with(t, "*\t"@)
        && t.len() > 1 && name_start(t[1]);
    if anchor {
        Some(("URD105"@, "YAML anchors are not supported in Urd frontmatter. Define each value explicitly."@))
    } else if alias {
        Some(("URD106"@, "YAML aliases are not supported in Urd frontmatter. Repeat the value where needed."@))
    } else if starts_with(t, "<<:"@) || t == "<<"@ {
        Some(("URD107"@, "YAML merge keys are not supported in Urd frontmatter."@))
    } else if has_seq(t, "!!"@) {
        Some(("URD108"@, "YAML custom tags are not supported in Urd frontmatter."@))
    } else if starts_with(t, "- "@) || t == "-"@ {
        Some(("URD109"@, "Block-style lists are not supported. Use flow-style lists: [item1, item2]."@))
    } else {
        None
    }
}

fn is_exactly(v: &Vec<char>, lit: &str) -> (b: bool)
    ensures
        b == (v@ == lit@),
{
    let l = chars_of(lit);
    crate::text::chars_equal(v, &l)
}

fn reject(parser: &Parser, line_idx: usize, code: &str, message: &str, diagnostics: &mut DiagnosticCollector)
    requires
        parser.wf(),
        line_idx < parser.lines@.len(),
    ensures
        appended(final(diagnostics)@, old(diagnostics)@,
            seq![(Severity::Error, code@, message@, line_span_v(parser.file_path@, parser.lines@[line_idx as int]))]),
{
    let span = parser.line_span(line_idx);
    let ghost before = diagnostics@;
    diagnostics.error(code, string_from_chars(chars_of(message)), span);
    proof {
        assert(diagnostics@.take(before.len() as int) == before);
        assert(diagnostics@[before.len() as int] == diagnostics@.last());
    }
}

/// Check for rejected YAML constructs and emit educational errors.
/// Returns true if the line was handled (rejected).
pub fn check_yaml_rejections(parser: &Parser, line_idx: usize, trimmed: &Vec<char>,
    diagnostics: &mut DiagnosticCollector) -> (rejected: bool)
    requires
        parser.wf(),
        line_idx < parser.lines@.len(),
    ensures
        rejected == yaml_rejection(trimmed@) is Some,
        appended(final(diagnostics)@, old(diagnostics)@, match yaml_rejection(trimmed@) {
            Some((code, msg)) => seq![(Severity::Error, code, msg, line_span_v(parser.file_path@, parser.lines@[line_idx as int]))],
            None => Seq::empty(),
        }),
{
    proof {
        lemma_appended_empty(diagnostics@);
        reveal_strlit("&&");
        reveal_strlit(" ");
        reveal_strlit(":");
        reveal_strlit("*");
        reveal_strlit("* ");
        reveal_strlit("*\t");
        reveal_strlit("<<:");
        reveal_strlit("<<");
        reveal_strlit("!!");
        reveal_strlit("- ");
        reveal_strlit("-");
        crate::text::lemma_first_char_index(trimmed@, '&');
    }
    let t = trimmed;
    let mut anchor = false;
    if let Some(pos) = find_char(t, '&') {
        assert(pos < t.len());
        if find_str(t, "&&").is_none() {
            let after = slice_chars(t, pos + 1, t.len());
            let before = slice_chars(t, 0, pos);
            assert(after@ =~= t@.skip(pos + 1));
            assert(before@ =~= t@.take(pos as int));
            if after.len() > 0 && (is_alphanumeric(after[0]) || after[0] == '_') {
                if before.len() == 0 || chars_end_with(&before, " ") || chars_end_with(&before, ":") {
                    anchor = true;
                }
            }
        }
    }
    if anchor {
        reject(parser, line_idx, "URD105",
            "YAML anchors are not supported in Urd frontmatter. Define each value explicitly.", diagnostics);
        return true;
    }
    if chars_start_with(t, "*") && !chars_start_with(t, "* ") && !chars_start_with(t, "*\t") {
        if t.len() > 1 && (is_alphanumeric(t[1]) || t[1] == '_') {
            reject(parser, line_idx, "URD106",
                "YAML aliases are not supported in Urd frontmatter. Repeat the value where needed.", diagnostics);
            return true;
        }
    }
    if chars_start_with(t, "<<:") || is_exactly(t, "<<") {
        reject(parser, line_idx, "URD107", "YAML merge keys are not supported in Urd frontmatter.", diagnostics);
        return true;
    }
    if find_str(t, "!!").is_some() {
        reject(parser, line_idx, "URD108", "YAML custom tags are not supported in Urd frontmatter.", diagnostics);
        return true;
    }
    if chars_start_with(t, "- ") || is_exactly(t, "-") {
        reject(parser, line_idx, "URD109",
            "Block-style lists are not supported. Use flow-style lists: [item1, item2].", diagnostics);
        return true;
    }
    false
}


// ── Scalars ──

/// Text between matching quotes: `"…"` or `'…'`.
pub open spec fn is_quoted(s: Seq<char>) -> bool {
    s.len() > 0 && ((s[0] == '"' && s[s.len() - 1] == '"') || (s[0] == '\'' && s[s.len() - 1] == '\''))
}

/// A scalar value as written: `true`/`false`, a quoted string (without its
/// quotes), an `i64`, a number `f64` parsing accepts, else the text
/// itself. The flag is set for a lone quote character, which cannot be
/// cut between its quotes.
pub open spec fn scalar_of(raw: Seq<char>) -> (ScalarV, bool) {
    let s = trim(raw);
    if s == "true"@ {
        (ScalarV::Bool(true), false)
    } else if s == "false"@ {
        (ScalarV::Bool(false), false)
    } else if is_quoted(s) {
        if s.len() >= 2 { (ScalarV::Str(s.subrange(1, s.len() - 1)), false) } else { (ScalarV::Str(Seq::empty()), true) }
    } else {
        match spec_parse_i64(s) {
            Some(n) => (ScalarV::Int(n), false),
            None => if is_float_text(s) { (ScalarV::Num(s), false) } else { (ScalarV::Str(s), false) },
        }
    }
}

fn chars_are(v: &Vec<char>, lit: &str) -> (b: bool)
    ensures
        b == (v@ == lit@),
{
    let l = chars_of(lit);
    crate::text::chars_equal(v, &l)
}

/// Parse a scalar value; the flag reports a lone quote character.
pub fn parse_scalar_value(raw: &Vec<char>) -> (r: (Scalar, bool))
    ensures
        (scalar_view(r.0), r.1) == scalar_of(raw@),
{
    let s = trim_chars(raw);
    if chars_are(&s, "true") {
        return (Scalar::Boolean(true), false);
    }
    if chars_are(&s, "false") {
        return (Scalar::Boolean(false), false);
    }
    if s.len() > 0 && ((s[0] == '"' && s[s.len() - 1] == '"') || (s[0] == '\'' && s[s.len() - 1] == '\'')) {
        if s.len() >= 2 {
            return (Scalar::String(string_from_chars(slice_chars(&s, 1, s.len() - 1))), false);
        }
        return (Scalar::String(String::new()), true);
    }
    let text = string_from_chars(slice_chars(&s, 0, s.len()));
    assert(text@ =~= s@);
    match parse_i64(text.as_str()) {
        Some(n) => (Scalar::Integer(n), false),
        None => {
            if is_float_literal(text.as_str()) {
                (Scalar::Number(text), false)
            } else {
                (Scalar::String(text), false)
            }
        },
    }
}

/// The key-value pairs of an inline object `{ key: value, … }`: each
/// top-level piece with a `:` and a non-empty key; the flag is set when
/// some value is a lone quote.
pub open spec fn inline_pairs(pieces: Seq<Seq<char>>) -> (Seq<(Seq<char>, ScalarV)>, bool)
    decreases pieces.len(),
{
    if pieces.len() == 0 {
        (Seq::empty(), false)
    } else {
        let prev = inline_pairs(pieces.drop_last());
        let pair = trim(pieces.last());
        match first_char_index(pair, ':') {
            Some(c) => {
                let key = trim(pair.take(c));
                let v = scalar_of(pair.skip(c + 1));
                if key.len() > 0 { (prev.0.push((key, v.0)), prev.1 || v.1) } else { prev }
            },
            None => prev,
        }
    }
}

/// The inside of `{…}` when the text is wrapped in braces, else the text.
pub open spec fn unbrace(t: Seq<char>) -> Seq<char> {
    if t.len() >= 2 && t[0] == '{' && t[t.len() - 1] == '}' { t.subrange(1, t.len() - 1) } else { t }
}

pub open spec fn inline_object(s: Seq<char>) -> (Seq<(Seq<char>, ScalarV)>, bool) {
    inline_pairs(split_top(unbrace(trim(s)), ','))
}

/// Parse an inline object: `{ key: value, key2: value2 }`.
pub fn parse_inline_object(s: &Vec<char>) -> (r: (Vec<(String, Scalar)>, bool))
    ensures
        (pairs_view(r.0@), r.1) == inline_object(s@),
{
    let t = trim_chars(s);
    let inner = if t.len() >= 2 && t[0] == '{' && t[t.len() - 1] == '}' {
        slice_chars(&t, 1, t.len() - 1)
    } else {
        slice_chars(&t, 0, t.len())
    };
    proof {
        if !(t@.len() >= 2 && t@[0] == '{' && t@[t@.len() - 1] == '}') {
            assert(inner@ =~= t@);
        }
    }
    let pieces = split_top_level(&inner, ',');
    let ghost ps = views(pieces@);
    let mut out: Vec<(String, Scalar)> = Vec::new();
    let mut fault = false;
    let mut i: usize = 0;
    proof { assert(ps.take(0) =~= Seq::<Seq<char>>::empty()); }
    while i < pieces.len()
        invariant
            ps == views(pieces@),
            ps == split_top(inner@, ','),
            i <= pieces@.len(),
            (pairs_view(out@), fault) == inline_pairs(ps.take(i as int)),
        decreases pieces.len() - i,
    {
        proof {
            assert(ps.take(i + 1).drop_last() =~= ps.take(i as int));
            assert(ps.take(i + 1).last() == pieces@[i as int]@);
        }
        let pair = trim_chars(&pieces[i]);
        proof { lemma_first_char_index(pair@, ':'); }
        match find_char(&pair, ':') {
            Some(c) => {
                assert(c < pair.len());
                let head = slice_chars(&pair, 0, c);
                let key = trim_chars(&head);
                let val = slice_chars(&pair, c + 1, pair.len());
                assert(val@ =~= pair@.skip(c + 1));
                assert(head@ =~= pair@.take(c as int));
                let (v, f) = parse_scalar_value(&val);
                if key.len() > 0 {
                    let ghost before = out@;
                    out.push((string_from_chars(key), v));
                    fault = fault || f;
                    proof { assert(pairs_view(out@) =~= pairs_view(before).push((key@, scalar_view(v)))); }
                }
            },
            None => {},
        }
        i += 1;
    }
    proof { assert(ps.take(pieces@.len() as int) =~= ps); }
    (out, fault)
}


// ── Type signatures ──

/// What a property's type signature declares.
pub struct SigV {
    pub property_type: Seq<char>,
    pub values: Option<Seq<Seq<char>>>,
    pub ref_type: Option<Seq<char>>,
    pub element_type: Option<Seq<char>>,
    pub element_values: Option<Seq<Seq<char>>>,
    pub element_ref_type: Option<Seq<char>>,
}

/// `t` is `open…)`.
pub open spec fn wrapped(t: Seq<char>, open: Seq<char>) -> bool {
    starts_with(t, open) && ends_with(t, ")"@) && t.len() > open.len()
}

/// The text between the opening of length `n` and the closing `)`.
pub open spec fn inside(t: Seq<char>, n: int) -> Seq<char> {
    t.subrange(n, t.len() - 1)
}

/// The comma-separated pieces of `s`, each trimmed (empty ones kept).
pub open spec fn trimmed_pieces(s: Seq<char>) -> Seq<Seq<char>> {
    split_on(s, ',').map_values(|p: Seq<char>| trim(p))
}

pub open spec fn sig(pt: Seq<char>) -> SigV {
    SigV { property_type: pt, values: None, ref_type: None, element_type: None, element_values: None, element_ref_type: None }
}

/// A type signature like `string`, `enum(a, b)`, `ref(Type)`, `list(ref(Type))`.
pub open spec fn signature(type_str: Seq<char>) -> SigV {
    let t = trim(type_str);
    if wrapped(t, "enum("@) {
        SigV { values: Some(trimmed_pieces(inside(t, 5))), ..sig("enum"@) }
    } else if wrapped(t, "ref("@) {
        SigV { ref_type: Some(trim(inside(t, 4))), ..sig("ref"@) }
    } else if wrapped(t, "list("@) {
        let inner = trim(inside(t, 5));
        if wrapped(inner, "enum("@) {
            SigV { element_type: Some("enum"@), element_values: Some(trimmed_pieces(inside(inner, 5))), ..sig("list"@) }
        } else if wrapped(inner, "ref("@) {
            SigV { element_type: Some("ref"@), element_ref_type: Some(trim(inside(inner, 4))), ..sig("list"@) }
        } else {
            SigV { element_type: Some(inner), ..sig("list"@) }
        }
    } else {
        sig(t)
    }
}

/// A parsed type signature.
pub struct TypeSignature {
    pub property_type: String,
    pub values: Option<Vec<String>>,
    pub ref_type: Option<String>,
    pub element_type: Option<String>,
    pub element_values: Option<Vec<String>>,
    pub element_ref_type: Option<String>,
}

pub open spec fn sig_view(s: TypeSignature) -> SigV {
    SigV {
        property_type: s.property_type@,
        values: crate::ast::opt_strings_view(s.values),
        ref_type: crate::ast::opt_view(s.ref_type),
        element_type: crate::ast::opt_view(s.element_type),
        element_values: crate::ast::opt_strings_view(s.element_values),
        element_ref_type: crate::ast::opt_view(s.element_ref_type),
    }
}

fn is_wrapped(t: &Vec<char>, open: &str) -> (b: bool)
    ensures
        b == wrapped(t@, open@),
{
    proof { reveal_strlit(")"); }
    let n = chars_of(open).len();
    chars_start_with(t, open) && chars_end_with(t, ")") && t.len() > n
}

fn inside_chars(t: &Vec<char>, n: usize) -> (r: Vec<char>)
    requires
        n < t@.len(),
    ensures
        r@ == inside(t@, n as int),
{
    slice_chars(t, n, t.len() - 1)
}

fn split_trimmed(s: &Vec<char>) -> (r: Vec<String>)
    ensures
        strings_view(r@) == trimmed_pieces(s@),
{
    let pieces = split_chars(s, ',');
    let ghost ps = views(pieces@);
    let mut out: Vec<String> = Vec::new();
    let mut i: usize = 0;
    while i < pieces.len()
        invariant
            ps == views(pieces@),
            ps == split_on(s@, ','),
            i <= pieces@.len(),
            out@.len() == i,
            forall|j: int| 0 <= j < i ==> (#[trigger] out@[j])@ == trim(ps[j]),
        decreases pieces.len() - i,
    {
        out.push(string_from_chars(trim_chars(&pieces[i])));
        i += 1;
    }
    assert(strings_view(out@) =~= trimmed_pieces(s@));
    out
}

fn text(lit: &str) -> (r: String)
    ensures
        r@ == lit@,
{
    lit.to_owned()
}

/// Parse a type signature like `string`, `enum(a, b)`, `ref(Type)`, `list(ref(Type))`.
pub fn parse_type_signature(type_str: &Vec<char>) -> (r: TypeSignature)
    ensures
        sig_view(r) == signature(type_str@),
{
    proof {
        reveal_strlit("enum(");
        reveal_strlit("ref(");
        reveal_strlit("list(");
    }
    let t = trim_chars(type_str);
    if is_wrapped(&t, "enum(") {
        let values = split_trimmed(&inside_chars(&t, 5));
        return TypeSignature { property_type: text("enum"), values: Some(values), ref_type: None,
            element_type: None, element_values: None, element_ref_type: None };
    }
    if is_wrapped(&t, "ref(") {
        let r = trim_chars(&inside_chars(&t, 4));
        return TypeSignature { property_type: text("ref"), values: None, ref_type: Some(string_from_chars(r)),
            element_type: None, element_values: None, element_ref_type: None };
    }
    if is_wrapped(&t, "list(") {
        let inner = trim_chars(&inside_chars(&t, 5));
        if is_wrapped(&inner, "enum(") {
            let values = split_trimmed(&inside_chars(&inner, 5));
            return TypeSignature { property_type: text("list"), values: None, ref_type: None,
                element_type: Some(text("enum")), element_values: Some(values), element_ref_type: None };
        }
        if is_wrapped(&inner, "ref(") {
            let r = trim_chars(&inside_chars(&inner, 4));
            return TypeSignature { property_type: text("list"), values: None, ref_type: None,
                element_type: Some(text("ref")), element_values: None, element_ref_type: Some(string_from_chars(r)) };
        }
        return TypeSignature { property_type: text("list"), values: None, ref_type: None,
            element_type: Some(string_from_chars(inner)), element_values: None, element_ref_type: None };
    }
    TypeSignature { property_type: string_from_chars(t), values: None, ref_type: None,
        element_type: None, element_values: None, element_ref_type: None }
}


// ── Lines ──

/// A frontmatter line with its tabs replaced, trimmed.
pub open spec fn fm_trimmed(ls: Seq<LineInfo>, i: int) -> Seq<char> {
    trim(proc_line(ls, i))
}

/// The indentation of a processed line, in bytes of leading white space.
pub open spec fn indent_bytes(t: Seq<char>) -> nat {
    utf8_len(t.take(leading_white(t) as int))
}

fn indent_bytes_exec(t: &Vec<char>) -> (n: usize)
    requires
        t@.len() <= 2 * crate::graph::MAX_FILE_SIZE,
    ensures
        n == indent_bytes(t@),
{
    let trimmed = crate::text::trim_start_chars(t);
    proof { lemma_trim_start(t@); }
    let k = t.len() - trimmed.len();
    let lead = slice_chars(t, 0, k);
    proof {
        crate::parse::lemma_utf8_len_bound(lead@);
    }
    crate::parse::utf8_len_chars(&lead)
}

// ── Property definitions ──

/// A property definition line `name: type` or `~name: type = default`:
/// the definition, if the line has a `:`, and whether its default is a
/// lone quote.
pub open spec fn prop_def_of(file: Seq<char>, ls: Seq<LineInfo>, i: int) -> (Option<PropDefV>, bool) {
    let t = fm_trimmed(ls, i);
    let hidden = t.len() > 0 && t[0] == '~';
    let rest = if hidden { t.skip(1) } else { t };
    match first_char_index(rest, ':') {
        None => (None, false),
        Some(c) => {
            let tad = trim(rest.skip(c + 1));
            let (ts, default, fault) = match find_seq(tad, " = "@) {
                Some(e) => (trim(tad.take(e)), Some(scalar_of(tad.skip(e + 3)).0), scalar_of(tad.skip(e + 3)).1),
                None => (tad, None, false),
            };
            let sg = signature(ts);
            (Some(PropDefV {
                name: trim(rest.take(c)),
                property_type: sg.property_type,
                default,
                visibility: if hidden { Some("hidden"@) } else { None },
                values: sg.values,
                ref_type: sg.ref_type,
                element_type: sg.element_type,
                element_values: sg.element_values,
                element_ref_type: sg.element_ref_type,
                description: None,
                span: line_span_v(file, ls[i]),
            }), fault)
        },
    }
}

/// Parse a property definition line: `name: type` or `~name: type = default`.
fn parse_property_def(parser: &Parser, line_idx: usize, diagnostics: &mut DiagnosticCollector)
    -> (r: (Option<PropertyDef>, bool))
    requires
        parser.wf(),
        line_idx < parser.lines@.len(),
    ensures
        (match r.0 { Some(p) => Some(prop_def_view(p)), None => None }, r.1)
            == prop_def_of(parser.file_path@, parser.lines@, line_idx as int),
        appended(final(diagnostics)@, old(diagnostics)@, tabs(parser.file_path@, parser.lines@, line_idx as int)),
{
    proof { reveal_strlit(" = "); reveal_strlit("hidden"); }
    let text = parser.check_tabs(line_idx, diagnostics);
    let t = trim_chars(&text);
    let hidden = t.len() > 0 && t[0] == '~';
    let rest = if hidden { slice_chars(&t, 1, t.len()) } else { slice_chars(&t, 0, t.len()) };
    proof {
        if hidden { assert(rest@ =~= t@.skip(1)); } else { assert(rest@ =~= t@); }
        lemma_first_char_index(rest@, ':');
    }
    let c = match find_char(&rest, ':') {
        Some(c) => c,
        None => { return (None, false); },
    };
    let head = slice_chars(&rest, 0, c);
    let name = trim_chars(&head);
    let tail = slice_chars(&rest, c + 1, rest.len());
    let tad = trim_chars(&tail);
    proof {
        assert(head@ =~= rest@.take(c as int));
        assert(tail@ =~= rest@.skip(c + 1));
        crate::text::lemma_find_seq(tad@, " = "@);
    }
    let (ts, default, fault) = match find_str(&tad, " = ") {
        Some(e) => {
            assert(crate::text::occurs_at(tad@, " = "@, e as int));
            assert(" = "@.len() == 3);
            assert(e + 3 <= tad.len());
            let th = slice_chars(&tad, 0, e);
            let dv = slice_chars(&tad, e + 3, tad.len());
            assert(th@ =~= tad@.take(e as int));
            assert(dv@ =~= tad@.skip(e + 3));
            let (d, f) = parse_scalar_value(&dv);
            (trim_chars(&th), Some(d), f)
        },
        None => (slice_chars(&tad, 0, tad.len()), None, false),
    };
    proof {
        if find_seq(tad@, " = "@) is None { assert(ts@ =~= tad@); }
    }
    let sg = parse_type_signature(&ts);
    let span = parser.line_span(line_idx);
    let p = PropertyDef {
        name: string_from_chars(name),
        property_type: sg.property_type,
        default,
        visibility: if hidden { Some(text_of("hidden")) } else { None },
        values: sg.values,
        ref_type: sg.ref_type,
        element_type: sg.element_type,
        element_values: sg.element_values,
        element_ref_type: sg.element_ref_type,
        description: None,
        span,
    };
    (Some(p), fault)
}

fn text_of(lit: &str) -> (r: String)
    ensures
        r@ == lit@,
{
    lit.to_owned()
}

// ── Entity declarations ──

/// An entity declaration line `@name: Type { overrides }`: the
/// declaration, if the line is one, and whether cutting it failed (a `}`
/// before the `{`, or an override that is a lone quote).
pub open spec fn entity_decl_of(file: Seq<char>, ls: Seq<LineInfo>, i: int) -> (Option<EntityDeclV>, bool) {
    let t = fm_trimmed(ls, i);
    let span = line_span_v(file, ls[i]);
    if !(t.len() > 0 && t[0] == '@') {
        (None, false)
    } else {
        let rest = t.skip(1);
        match first_char_index(rest, ':') {
            None => (None, false),
            Some(c) => {
                let id = trim(rest.take(c));
                let ac = trim(rest.skip(c + 1));
                match first_char_index(ac, '{') {
                    None => (Some(EntityDeclV { id, entity_type: ac, overrides: Seq::empty(), bare: true, span }), false),
                    Some(b) => match last_char_index(ac, '}') {
                        None => (None, false),
                        Some(e) => if e < b + 1 {
                            (None, true)
                        } else {
                            let o = inline_object("{"@ + ac.subrange(b + 1, e) + "}"@);
                            (Some(EntityDeclV { id, entity_type: trim(ac.take(b)), overrides: o.0, bare: true, span }), o.1)
                        },
                    },
                }
            },
        }
    }
}

/// Parse an entity declaration: `@name: Type { overrides }`.
fn parse_entity_declaration(parser: &Parser, line_idx: usize, diagnostics: &mut DiagnosticCollector)
    -> (r: (Option<EntityDecl>, bool))
    requires
        parser.wf(),
        line_idx < parser.lines@.len(),
    ensures
        (match r.0 { Some(e) => Some(entity_decl_view(e)), None => None }, r.1)
            == entity_decl_of(parser.file_path@, parser.lines@, line_idx as int),
        appended(final(diagnostics)@, old(diagnostics)@, tabs(parser.file_path@, parser.lines@, line_idx as int)),
{
    let text = parser.check_tabs(line_idx, diagnostics);
    let t = trim_chars(&text);
    let span = parser.line_span(line_idx);
    if !(t.len() > 0 && t[0] == '@') {
        return (None, false);
    }
    let rest = slice_chars(&t, 1, t.len());
    assert(rest@ =~= t@.skip(1));
    proof { lemma_first_char_index(rest@, ':'); }
    let c = match find_char(&rest, ':') {
        Some(c) => c,
        None => { return (None, false); },
    };
    let head = slice_chars(&rest, 0, c);
    let tail = slice_chars(&rest, c + 1, rest.len());
    assert(head@ =~= rest@.take(c as int));
    assert(tail@ =~= rest@.skip(c + 1));
    let id = string_from_chars(trim_chars(&head));
    let ac = trim_chars(&tail);
    proof {
        lemma_first_char_index(ac@, '{');
        lemma_last_char_index(ac@, '}');
    }
    match find_char(&ac, '{') {
        None => {
            let d = EntityDecl { id, entity_type: string_from_chars(ac), property_overrides: Vec::new(), annotation: None, span };
            assert(pairs_view(d.property_overrides@) =~= Seq::<(Seq<char>, ScalarV)>::empty());
            (Some(d), false)
        },
        Some(b) => match rfind_char(&ac, '}') {
            None => (None, false),
            Some(e) => {
                if e < b + 1 {
                    return (None, true);
                }
                let ty = slice_chars(&ac, 0, b);
                assert(ty@ =~= ac@.take(b as int));
                let mut wrapped: Vec<char> = Vec::new();
                wrapped.push('{');
                let middle = slice_chars(&ac, b + 1, e);
                crate::text::push_chars(&mut wrapped, &middle);
                wrapped.push('}');
                proof {
                    reveal_strlit("{");
                    reveal_strlit("}");
                    assert(wrapped@ =~= "{"@ + ac@.subrange(b + 1, e as int) + "}"@);
                }
                let (o, f) = parse_inline_object(&wrapped);
                (Some(EntityDecl { id, entity_type: string_from_chars(trim_chars(&ty)), property_overrides: o, annotation: None, span }), f)
            },
        },
    }
}


// ── Blocks ──

/// What a run of lines yields: the items, the line after the run, the
/// diagnostics (in order), and whether cutting some line failed.
pub type Run<T> = (Seq<T>, int, Seq<PlainDiag>, bool);

/// The property lines of a type definition from line `j`: lines indented
/// at least `prop_indent` bytes (blank lines skipped); each line's tabs
/// are checked once for the indent and once more when it is parsed.
pub open spec fn props_from(file: Seq<char>, ls: Seq<LineInfo>, j: int, end: int, prop_indent: nat) -> Run<PropDefV>
    decreases end - j,
{
    if j >= end {
        (Seq::empty(), j, Seq::empty(), false)
    } else {
        let d = tabs(file, ls, j);
        let p = proc_line(ls, j);
        if trim(p).len() == 0 {
            let r = props_from(file, ls, j + 1, end, prop_indent);
            (r.0, r.1, d + r.2, r.3)
        } else if indent_bytes(p) < prop_indent {
            (Seq::empty(), j, d, false)
        } else {
            let pd = prop_def_of(file, ls, j);
            let r = props_from(file, ls, j + 1, end, prop_indent);
            (match pd.0 { Some(v) => seq![v] + r.0, None => r.0 }, r.1, d + tabs(file, ls, j) + r.2, pd.1 || r.3)
        }
    }
}

/// The comma-separated pieces of `s`, trimmed, without the empty ones.
pub open spec fn nonempty_pieces(s: Seq<char>) -> Seq<Seq<char>> {
    drop_empty(trimmed_pieces(s))
}

/// `ps` without its empty pieces.
pub open spec fn drop_empty(ps: Seq<Seq<char>>) -> Seq<Seq<char>>
    decreases ps.len(),
{
    if ps.len() == 0 {
        Seq::empty()
    } else if ps.last().len() > 0 {
        drop_empty(ps.drop_last()).push(ps.last())
    } else {
        drop_empty(ps.drop_last())
    }
}

/// A type definition `TypeName [traits]:` at line `i` with its property
/// lines; `None` (at line `i`) when the line is not one.
pub open spec fn type_def_of(file: Seq<char>, ls: Seq<LineInfo>, i: int, end: int, type_indent: nat)
    -> (Option<TypeDefV>, int, Seq<PlainDiag>, bool)
{
    let d = tabs(file, ls, i);
    let t = fm_trimmed(ls, i);
    if !(t.len() > 0 && t[t.len() - 1] == ':') {
        (None, i, d, false)
    } else {
        let wc = trim(t.take(t.len() - 1));
        let head: Option<(Seq<char>, Seq<Seq<char>>, bool)> = match first_char_index(wc, '[') {
            Some(bs) => match first_char_index(wc, ']') {
                None => None,
                Some(be) => if be < bs + 1 {
                    Some((Seq::empty(), Seq::empty(), true))
                } else {
                    Some((trim(wc.take(bs)), nonempty_pieces(wc.subrange(bs + 1, be)), false))
                },
            },
            None => Some((wc, Seq::empty(), false)),
        };
        match head {
            None => (None, i, d, false),
            Some((name, traits, cut)) => if cut {
                (None, i, d, true)
            } else if name.len() == 0 || !unicode_uppercase(name[0]) {
                (None, i, d, false)
            } else {
                let r = props_from(file, ls, i + 1, end, type_indent + 2);
                (Some(TypeDefV {
                    name,
                    traits,
                    properties: r.0,
                    span: if r.1 > i + 1 { span_lines_v(file, ls[i], ls[r.1 - 1]) } else { line_span_v(file, ls[i]) },
                }), r.1, d + r.2, r.3)
            },
        }
    }
}

pub open spec fn type_entry(v: TypeDefV) -> EntryV {
    EntryV { key: v.name, value: ValueV::TypeDef(v), span: v.span }
}

/// The type definitions of a `types:` block from line `j`.
pub open spec fn types_block(file: Seq<char>, ls: Seq<LineInfo>, j: int, end: int, child_indent: nat) -> Run<EntryV>
    decreases end - j,
{
    if j >= end {
        (Seq::empty(), j, Seq::empty(), false)
    } else {
        let d = tabs(file, ls, j);
        let p = proc_line(ls, j);
        let t = trim(p);
        if t.len() == 0 || t[0] == '#' {
            let r = types_block(file, ls, j + 1, end, child_indent);
            (r.0, r.1, d + r.2, r.3)
        } else if indent_bytes(p) < child_indent {
            (Seq::empty(), j, d, false)
        } else {
            let td = type_def_of(file, ls, j, end, indent_bytes(p));
            match td.0 {
                Some(v) => if j < td.1 <= end {
                    let r = types_block(file, ls, td.1, end, child_indent);
                    (seq![type_entry(v)] + r.0, r.1, d + td.2 + r.2, td.3 || r.3)
                } else {
                    (Seq::empty(), j, d, false)
                },
                None => {
                    let r = types_block(file, ls, j + 1, end, child_indent);
                    (r.0, r.1, d + td.2 + r.2, td.3 || r.3)
                },
            }
        }
    }
}

pub open spec fn entity_entry(v: EntityDeclV) -> EntryV {
    EntryV { key: v.id, value: ValueV::EntityDecl(v), span: v.span }
}

/// The entity declarations of an `entities:` block from line `j`.
pub open spec fn entities_block(file: Seq<char>, ls: Seq<LineInfo>, j: int, end: int, child_indent: nat) -> Run<EntryV>
    decreases end - j,
{
    if j >= end {
        (Seq::empty(), j, Seq::empty(), false)
    } else {
        let d = tabs(file, ls, j);
        let p = proc_line(ls, j);
        let t = trim(p);
        if t.len() == 0 || t[0] == '#' {
            let r = entities_block(file, ls, j + 1, end, child_indent);
            (r.0, r.1, d + r.2, r.3)
        } else if indent_bytes(p) < child_indent {
            (Seq::empty(), j, d, false)
        } else {
            let ed = entity_decl_of(file, ls, j);
            let r = entities_block(file, ls, j + 1, end, child_indent);
            (match ed.0 { Some(v) => seq![entity_entry(v)] + r.0, None => r.0 }, r.1, d + tabs(file, ls, j) + r.2, ed.1 || r.3)
        }
    }
}

/// The `key: value` fields of a `world:` block from line `j`.
pub open spec fn world_fields(file: Seq<char>, ls: Seq<LineInfo>, j: int, end: int, child_indent: nat) -> Run<(Seq<char>, ScalarV)>
    decreases end - j,
{
    if j >= end {
        (Seq::empty(), j, Seq::empty(), false)
    } else {
        let d = tabs(file, ls, j);
        let p = proc_line(ls, j);
        let t = trim(p);
        if t.len() == 0 {
            let r = world_fields(file, ls, j + 1, end, child_indent);
            (r.0, r.1, d + r.2, r.3)
        } else if indent_bytes(p) < child_indent {
            (Seq::empty(), j, d, false)
        } else {
            let r = world_fields(file, ls, j + 1, end, child_indent);
            match first_char_index(t, ':') {
                Some(c) => {
                    let key = trim(t.take(c));
                    let v = scalar_of(t.skip(c + 1));
                    if key.len() > 0 {
                        (seq![(key, v.0)] + r.0, r.1, d + r.2, v.1 || r.3)
                    } else {
                        (r.0, r.1, d + r.2, r.3)
                    }
                },
                None => (r.0, r.1, d + r.2, r.3),
            }
        }
    }
}

/// `s` without leading and trailing `c`s (`str::trim_matches`).
pub open spec fn strip_start(s: Seq<char>, c: char) -> Seq<char>
    decreases s.len(),
{
    if s.len() > 0 && s[0] == c { strip_start(s.drop_first(), c) } else { s }
}

pub open spec fn strip_end(s: Seq<char>, c: char) -> Seq<char>
    decreases s.len(),
{
    if s.len() > 0 && s.last() == c { strip_end(s.drop_last(), c) } else { s }
}

pub open spec fn trim_matches(s: Seq<char>, c: char) -> Seq<char> {
    strip_end(strip_start(s, c), c)
}

/// The items of a flow list as values, and whether one is a lone quote.
pub open spec fn list_values(items: Seq<Seq<char>>) -> (Seq<ValueV>, bool)
    decreases items.len(),
{
    if items.len() == 0 {
        (Seq::empty(), false)
    } else {
        let prev = list_values(items.drop_last());
        let v = scalar_of(items.last());
        (prev.0.push(ValueV::Scalar(v.0)), prev.1 || v.1)
    }
}

pub open spec fn inline_entries(pairs: Seq<(Seq<char>, ScalarV)>, span: SpanV) -> Seq<EntryV> {
    pairs.map_values(|p: (Seq<char>, ScalarV)| EntryV { key: p.0, value: ValueV::Scalar(p.1), span })
}

pub open spec fn msg_nesting(line: nat) -> Seq<char> {
    "Frontmatter nesting exceeds 8 levels at line "@ + decimal(line) + "."@
}

pub open spec fn nesting_error(file: Seq<char>, ls: Seq<LineInfo>, i: int) -> PlainDiag {
    (Severity::Error, "URD104"@, msg_nesting(ls[i].line_number as nat), line_span_v(file, ls[i]))
}

/// A frontmatter entry `key: value` at line `i`: the entry (or none), the
/// line after it, its diagnostics, and whether cutting failed.
pub open spec fn entry_of(file: Seq<char>, ls: Seq<LineInfo>, i: int, end: int)
    -> (Option<EntryV>, int, Seq<PlainDiag>, bool)
    decreases end - i, 0int,
{
    let d = tabs(file, ls, i);
    let p = proc_line(ls, i);
    let ind = indent_bytes(p);
    let t = trim(p);
    let span = line_span_v(file, ls[i]);
    if i >= end {
        (None, i, Seq::empty(), false)
    } else if ind / 2 > 8 {
        (None, i + 1, d.push(nesting_error(file, ls, i)), false)
    } else {
        match first_char_index(t, ':') {
            None => (None, i, d, false),
            Some(c) => {
                let key = trim(t.take(c));
                let ac = trim(t.skip(c + 1));
                let one = |v: ValueV| Some(EntryV { key, value: v, span });
                if key.len() == 0 {
                    (None, i, d, false)
                } else if key == "import"@ {
                    (one(ValueV::ImportDecl(trim_matches(trim_matches(ac, '"'), '\''), span)), i + 1, d, false)
                } else if key == "world"@ {
                    let w = world_fields(file, ls, i + 1, end, ind + 2);
                    let wspan = if w.1 > i + 1 { span_lines_v(file, ls[i], ls[w.1 - 1]) } else { span };
                    (one(ValueV::WorldBlock(w.0, wspan)), w.1, d + w.2, w.3)
                } else if key == "types"@ {
                    let b = types_block(file, ls, i + 1, end, ind + 2);
                    (one(ValueV::Mapping(b.0)), b.1, d + b.2, b.3)
                } else if key == "entities"@ {
                    let b = entities_block(file, ls, i + 1, end, ind + 2);
                    (one(ValueV::Mapping(b.0)), b.1, d + b.2, b.3)
                } else if ac.len() == 0 {
                    let n = nested_entries_of(file, ls, i + 1, end, ind + 2);
                    (one(ValueV::Mapping(n.0)), n.1, d + n.2, n.3)
                } else if ac[0] == '{' {
                    let o = inline_object(ac);
                    (one(ValueV::InlineObject(inline_entries(o.0, span))), i + 1, d, o.1)
                } else if ac[0] == '[' {
                    let l = list_values(flow_list(ac));
                    (one(ValueV::List(l.0)), i + 1, d, l.1)
                } else if ac[0] == '@' {
                    (one(ValueV::Scalar(ScalarV::Str(ac))), i + 1, d, false)
                } else {
                    let v = scalar_of(ac);
                    (one(ValueV::Scalar(v.0)), i + 1, d, v.1)
                }
            },
        }
    }
}

/// The entries nested under a block key, from line `j`: lines indented at
/// least `child_indent` bytes (blank lines skipped); a line that is no
/// entry is passed over.
pub open spec fn nested_entries_of(file: Seq<char>, ls: Seq<LineInfo>, j: int, end: int, child_indent: nat) -> Run<EntryV>
    decreases end - j, 1int,
{
    if j >= end {
        (Seq::empty(), j, Seq::empty(), false)
    } else {
        let d = tabs(file, ls, j);
        let p = proc_line(ls, j);
        if trim(p).len() == 0 {
            let r = nested_entries_of(file, ls, j + 1, end, child_indent);
            (r.0, r.1, d + r.2, r.3)
        } else if indent_bytes(p) < child_indent {
            (Seq::empty(), j, d, false)
        } else {
            let e = entry_of(file, ls, j, end);
            let next = match e.0 { Some(_) => e.1, None => e.1 + 1 };
            if j < next <= end {
                let r = nested_entries_of(file, ls, next, end, child_indent);
                (match e.0 { Some(v) => seq![v] + r.0, None => r.0 }, r.1, d + e.2 + r.2, e.3 || r.3)
            } else {
                (match e.0 { Some(v) => seq![v], None => Seq::empty() }, next, d + e.2, e.3)
            }
        }
    }
}


// ── Parsing blocks ──

/// Check a line's tabs and measure it: its trimmed text and its
/// indentation in bytes.
fn scan_line(parser: &Parser, j: usize, diagnostics: &mut DiagnosticCollector) -> (r: (Vec<char>, usize))
    requires
        parser.wf(),
        j < parser.lines@.len(),
    ensures
        r.0@ == trim(proc_line(parser.lines@, j as int)),
        r.1 == indent_bytes(proc_line(parser.lines@, j as int)),
        r.1 <= 8 * crate::graph::MAX_FILE_SIZE,
        appended(final(diagnostics)@, old(diagnostics)@, tabs(parser.file_path@, parser.lines@, j as int)),
{
    let text = parser.check_tabs(j, diagnostics);
    proof {
        crate::content::lemma_detab_len(parser.lines@[j as int].text@);
        assert(parser.lines@[j as int].text@.len() <= crate::graph::MAX_FILE_SIZE);
    }
    let t = trim_chars(&text);
    let ind = indent_bytes_exec(&text);
    proof {
        lemma_trim_start(text@);
        crate::parse::lemma_utf8_len_bound(text@.take(leading_white(text@) as int));
    }
    (t, ind)
}

pub open spec fn props_view(v: Seq<PropertyDef>) -> Seq<PropDefV> {
    v.map_values(|p: PropertyDef| prop_def_view(p))
}

/// The property lines of a type definition from line `start`.
fn parse_properties(parser: &Parser, start: usize, end: usize, prop_indent: usize, diagnostics: &mut DiagnosticCollector)
    -> (r: (Vec<PropertyDef>, usize, bool))
    requires
        parser.wf(),
        start <= end <= parser.lines@.len(),
    ensures
        (props_view(r.0@), r.1 as int, r.2) == {
            let x = props_from(parser.file_path@, parser.lines@, start as int, end as int, prop_indent as nat);
            (x.0, x.1, x.3)
        },
        start <= r.1 <= end,
        appended(final(diagnostics)@, old(diagnostics)@,
            props_from(parser.file_path@, parser.lines@, start as int, end as int, prop_indent as nat).2),
{
    let ghost file = parser.file_path@;
    let ghost ls = parser.lines@;
    let ghost pi = prop_indent as nat;
    let ghost total = props_from(file, ls, start as int, end as int, pi);
    let ghost d0 = diagnostics@;
    let ghost mut done_d: Seq<PlainDiag> = Seq::empty();
    let mut props: Vec<PropertyDef> = Vec::new();
    let mut fault = false;
    let mut j = start;
    proof {
        lemma_appended_empty(d0);
        assert(props_view(props@) + total.0 =~= total.0);
        assert(done_d + total.2 =~= total.2);
    }
    loop
        invariant_except_break
            start <= j <= end <= ls.len(),
            file == parser.file_path@,
            ls == parser.lines@,
            parser.wf(),
            total == props_from(file, ls, start as int, end as int, pi),
            pi == prop_indent as nat,
            props_view(props@) + props_from(file, ls, j as int, end as int, pi).0 == total.0,
            props_from(file, ls, j as int, end as int, pi).1 == total.1,
            appended(diagnostics@, d0, done_d),
            done_d + props_from(file, ls, j as int, end as int, pi).2 == total.2,
            (fault || props_from(file, ls, j as int, end as int, pi).3) == total.3,
        ensures
            start <= j <= end,
            props_view(props@) == total.0,
            j == total.1,
            appended(diagnostics@, d0, total.2),
            fault == total.3,
        decreases end - j,
    {
        if j >= end {
            proof {
                assert(props_view(props@) + Seq::<PropDefV>::empty() =~= props_view(props@));
                assert(done_d + Seq::<PlainDiag>::empty() =~= done_d);
            }
            break;
        }
        let ghost here = props_from(file, ls, j as int, end as int, pi);
        let ghost dj = diagnostics@;
        let (t, ind) = scan_line(parser, j, diagnostics);
        proof { lemma_appended_trans(d0, dj, diagnostics@, done_d, tabs(file, ls, j as int)); }
        if t.len() == 0 {
            proof {
                let r = props_from(file, ls, j + 1, end as int, pi);
                assert(here == (r.0, r.1, tabs(file, ls, j as int) + r.2, r.3));
                assert(done_d + tabs(file, ls, j as int) + r.2 =~= done_d + here.2);
                done_d = done_d + tabs(file, ls, j as int);
            }
            j += 1;
            continue;
        }
        if ind < prop_indent {
            proof {
                assert(here == (Seq::<PropDefV>::empty(), j as int, tabs(file, ls, j as int), false));
                assert(props_view(props@) + Seq::<PropDefV>::empty() =~= props_view(props@));
                done_d = done_d + tabs(file, ls, j as int);
            }
            break;
        }
        let ghost dk = diagnostics@;
        let (pd, f) = parse_property_def(parser, j, diagnostics);
        proof {
            lemma_appended_trans(d0, dk, diagnostics@, done_d + tabs(file, ls, j as int), tabs(file, ls, j as int));
        }
        let ghost before = props@;
        match pd {
            Some(p) => {
                props.push(p);
                proof {
                    assert(props_view(props@) =~= props_view(before).push(prop_def_view(p)));
                }
            },
            None => {},
        }
        fault = fault || f;
        proof {
            let r = props_from(file, ls, j + 1, end as int, pi);
            let pdv = prop_def_of(file, ls, j as int);
            assert(here.0 == match pdv.0 { Some(v) => seq![v] + r.0, None => r.0 });
            match pdv.0 {
                Some(v) => { assert(props_view(props@) + r.0 =~= props_view(before) + (seq![v] + r.0)); },
                None => { assert(props_view(props@) =~= props_view(before)); },
            }
            assert(done_d + tabs(file, ls, j as int) + tabs(file, ls, j as int) + r.2 =~= done_d + here.2);
            done_d = done_d + tabs(file, ls, j as int) + tabs(file, ls, j as int);
        }
        j += 1;
    }
    (props, j, fault)
}


pub open spec fn opt_type_def_view(o: Option<TypeDef>) -> Option<TypeDefV> {
    match o {
        Some(t) => Some(type_def_view(t)),
        None => None,
    }
}

fn nonempty_trimmed(s: &Vec<char>) -> (r: Vec<String>)
    ensures
        strings_view(r@) == nonempty_pieces(s@),
{
    let all = split_trimmed(s);
    let ghost tp = trimmed_pieces(s@);
    let mut out: Vec<String> = Vec::new();
    let mut i: usize = 0;

    while i < all.len()
        invariant
            strings_view(all@) == tp,
            tp == trimmed_pieces(s@),
            i <= all@.len(),
            strings_view(out@) == drop_empty(tp.take(i as int)),
        decreases all@.len() - i,
    {
        proof {
            assert(tp.take(i + 1).drop_last() =~= tp.take(i as int));
            assert(tp[i as int] == all@[i as int]@);
            assert(tp.take(i + 1).last() == all@[i as int]@);
        }
        let ghost before = out@;
        if !all[i].as_str().is_empty() {
            out.push(all[i].clone());
            proof { assert(strings_view(out@) =~= strings_view(before).push(all@[i as int]@)); }
        }
        i += 1;
    }
    assert(tp.take(all@.len() as int) =~= tp);
    out
}

/// Parse a type definition: `TypeName [trait1, trait2]:` followed by
/// property lines.
fn parse_type_definition(parser: &Parser, i: usize, end: usize, type_indent: usize, diagnostics: &mut DiagnosticCollector)
    -> (r: (Option<TypeDef>, usize, bool))
    requires
        parser.wf(),
        i < end <= parser.lines@.len(),
        type_indent <= 8 * crate::graph::MAX_FILE_SIZE,
    ensures
        (opt_type_def_view(r.0), r.1 as int, r.2) == {
            let x = type_def_of(parser.file_path@, parser.lines@, i as int, end as int, type_indent as nat);
            (x.0, x.1, x.3)
        },
        i <= r.1 <= end,
        r.0 is Some ==> i < r.1,
        appended(final(diagnostics)@, old(diagnostics)@,
            type_def_of(parser.file_path@, parser.lines@, i as int, end as int, type_indent as nat).2),
{
    let ghost file = parser.file_path@;
    let ghost ls = parser.lines@;
    let (t, _) = scan_line(parser, i, diagnostics);
    if !(t.len() > 0 && t[t.len() - 1] == ':') {
        return (None, i, false);
    }
    let head = slice_chars(&t, 0, t.len() - 1);
    assert(head@ =~= t@.take(t@.len() - 1));
    let wc = trim_chars(&head);
    proof {
        lemma_first_char_index(wc@, '[');
        lemma_first_char_index(wc@, ']');
    }
    let (name, traits) = match find_char(&wc, '[') {
        Some(bs) => match find_char(&wc, ']') {
            None => { return (None, i, false); },
            Some(be) => {
                if be < bs + 1 {
                    return (None, i, true);
                }
                let before = slice_chars(&wc, 0, bs);
                assert(before@ =~= wc@.take(bs as int));
                let inner = slice_chars(&wc, bs + 1, be);
                (trim_chars(&before), nonempty_trimmed(&inner))
            },
        },
        None => (slice_chars(&wc, 0, wc.len()), Vec::new()),
    };
    proof {
        if first_char_index(wc@, '[') is None {
            assert(name@ =~= wc@);
            assert(strings_view(traits@) =~= Seq::<Seq<char>>::empty());
        }
    }
    if name.len() == 0 || !is_uppercase(name[0]) {
        return (None, i, false);
    }
    let span_start = parser.line_span(i);
    let ghost d0 = old(diagnostics)@;
    let ghost d1 = diagnostics@;
    let (properties, next, fault) = parse_properties(parser, i + 1, end, type_indent + 2, diagnostics);
    proof {
        lemma_appended_trans(d0, d1, diagnostics@, tabs(file, ls, i as int),
            props_from(file, ls, i + 1, end as int, (type_indent + 2) as nat).2);
    }
    let span = if next > i + 1 { parser.span_lines(i, next - 1) } else { span_start };
    let td = TypeDef { name: string_from_chars(name), traits, properties, span };
    (Some(td), next, fault)
}


/// Parse a `types:` block of type definitions from line `start`.
fn parse_types_block(parser: &Parser, start: usize, end: usize, child_indent: usize, diagnostics: &mut DiagnosticCollector)
    -> (r: (Vec<FrontmatterEntry>, usize, bool))
    requires
        parser.wf(),
        start <= end <= parser.lines@.len(),
    ensures
        (entries_view(r.0@), r.1 as int, r.2) == {
            let x = types_block(parser.file_path@, parser.lines@, start as int, end as int, child_indent as nat);
            (x.0, x.1, x.3)
        },
        start <= r.1 <= end,
        appended(final(diagnostics)@, old(diagnostics)@,
            types_block(parser.file_path@, parser.lines@, start as int, end as int, child_indent as nat).2),
{
    let ghost file = parser.file_path@;
    let ghost ls = parser.lines@;
    let ghost ci = child_indent as nat;
    let ghost total = types_block(file, ls, start as int, end as int, ci);
    let ghost d0 = diagnostics@;
    let ghost mut done_d: Seq<PlainDiag> = Seq::empty();
    let mut entries: Vec<FrontmatterEntry> = Vec::new();
    let mut fault = false;
    let mut j = start;
    proof {
        lemma_appended_empty(d0);
        assert(entries_view(entries@) + total.0 =~= total.0);
        assert(done_d + total.2 =~= total.2);
    }
    loop
        invariant_except_break
            start <= j <= end <= ls.len(),
            file == parser.file_path@,
            ls == parser.lines@,
            parser.wf(),
            ci == child_indent as nat,
            total == types_block(file, ls, start as int, end as int, ci),
            entries_view(entries@) + types_block(file, ls, j as int, end as int, ci).0 == total.0,
            types_block(file, ls, j as int, end as int, ci).1 == total.1,
            appended(diagnostics@, d0, done_d),
            done_d + types_block(file, ls, j as int, end as int, ci).2 == total.2,
            (fault || types_block(file, ls, j as int, end as int, ci).3) == total.3,
        ensures
            start <= j <= end,
            entries_view(entries@) == total.0,
            j == total.1,
            appended(diagnostics@, d0, total.2),
            fault == total.3,
        decreases end - j,
    {
        if j >= end {
            proof {
                assert(entries_view(entries@) + Seq::<EntryV>::empty() =~= entries_view(entries@));
                assert(done_d + Seq::<PlainDiag>::empty() =~= done_d);
            }
            break;
        }
        let ghost here = types_block(file, ls, j as int, end as int, ci);
        let ghost dj = diagnostics@;
        let (t, ind) = scan_line(parser, j, diagnostics);
        proof { lemma_appended_trans(d0, dj, diagnostics@, done_d, tabs(file, ls, j as int)); }
        if t.len() == 0 || t[0] == '#' {
            proof {
                let r = types_block(file, ls, j + 1, end as int, ci);
                assert(here == (r.0, r.1, tabs(file, ls, j as int) + r.2, r.3));
                assert(done_d + tabs(file, ls, j as int) + r.2 =~= done_d + here.2);
                done_d = done_d + tabs(file, ls, j as int);
            }
            j += 1;
            continue;
        }
        if ind < child_indent {
            proof {
                assert(entries_view(entries@) + Seq::<EntryV>::empty() =~= entries_view(entries@));
                done_d = done_d + tabs(file, ls, j as int);
            }
            break;
        }
        let ghost dk = diagnostics@;
        let (td, next, f) = parse_type_definition(parser, j, end, ind, diagnostics);
        let ghost tdv = type_def_of(file, ls, j as int, end as int, ind as nat);
        proof {
            lemma_appended_trans(d0, dk, diagnostics@, done_d + tabs(file, ls, j as int), tdv.2);
        }
        let ghost before = entries@;
        match td {
            Some(v) => {
                let key = v.name.clone();
                let span = v.span.clone();
                let e = FrontmatterEntry { key, value: FrontmatterValue::TypeDef(v), span };
                entries.push(e);
                proof {
                    lemma_entries_view_push(before, e);
                    let r = types_block(file, ls, next as int, end as int, ci);
                    assert(here == (seq![type_entry(type_def_view(v))] + r.0, r.1, tabs(file, ls, j as int) + tdv.2 + r.2, tdv.3 || r.3));
                    assert(entries_view(entries@) + r.0 =~= entries_view(before) + here.0);
                    assert(done_d + tabs(file, ls, j as int) + tdv.2 + r.2 =~= done_d + here.2);
                    done_d = done_d + tabs(file, ls, j as int) + tdv.2;
                }
                fault = fault || f;
                j = next;
            },
            None => {
                proof {
                    let r = types_block(file, ls, j + 1, end as int, ci);
                    assert(here == (r.0, r.1, tabs(file, ls, j as int) + tdv.2 + r.2, tdv.3 || r.3));
                    assert(done_d + tabs(file, ls, j as int) + tdv.2 + r.2 =~= done_d + here.2);
                    done_d = done_d + tabs(file, ls, j as int) + tdv.2;
                }
                fault = fault || f;
                j += 1;
            },
        }
    }
    (entries, j, fault)
}

/// Parse an `entities:` block of entity declarations from line `start`.
fn parse_entities_block(parser: &Parser, start: usize, end: usize, child_indent: usize, diagnostics: &mut DiagnosticCollector)
    -> (r: (Vec<FrontmatterEntry>, usize, bool))
    requires
        parser.wf(),
        start <= end <= parser.lines@.len(),
    ensures
        (entries_view(r.0@), r.1 as int, r.2) == {
            let x = entities_block(parser.file_path@, parser.lines@, start as int, end as int, child_indent as nat);
            (x.0, x.1, x.3)
        },
        start <= r.1 <= end,
        appended(final(diagnostics)@, old(diagnostics)@,
            entities_block(parser.file_path@, parser.lines@, start as int, end as int, child_indent as nat).2),
{
    let ghost file = parser.file_path@;
    let ghost ls = parser.lines@;
    let ghost ci = child_indent as nat;
    let ghost total = entities_block(file, ls, start as int, end as int, ci);
    let ghost d0 = diagnostics@;
    let ghost mut done_d: Seq<PlainDiag> = Seq::empty();
    let mut entries: Vec<FrontmatterEntry> = Vec::new();
    let mut fault = false;
    let mut j = start;
    proof {
        lemma_appended_empty(d0);
        assert(entries_view(entries@) + total.0 =~= total.0);
        assert(done_d + total.2 =~= total.2);
    }
    loop
        invariant_except_break
            start <= j <= end <= ls.len(),
            file == parser.file_path@,
            ls == parser.lines@,
            parser.wf(),
            ci == child_indent as nat,
            total == entities_block(file, ls, start as int, end as int, ci),
            entries_view(entries@) + entities_block(file, ls, j as int, end as int, ci).0 == total.0,
            entities_block(file, ls, j as int, end as int, ci).1 == total.1,
            appended(diagnostics@, d0, done_d),
            done_d + entities_block(file, ls, j as int, end as int, ci).2 == total.2,
            (fault || entities_block(file, ls, j as int, end as int, ci).3) == total.3,
        ensures
            start <= j <= end,
            entries_view(entries@) == total.0,
            j == total.1,
            appended(diagnostics@, d0, total.2),
            fault == total.3,
        decreases end - j,
    {
        if j >= end {
            proof {
                assert(entries_view(entries@) + Seq::<EntryV>::empty() =~= entries_view(entries@));
                assert(done_d + Seq::<PlainDiag>::empty() =~= done_d);
            }
            break;
        }
        let ghost here = entities_block(file, ls, j as int, end as int, ci);
        let ghost dj = diagnostics@;
        let (t, ind) = scan_line(parser, j, diagnostics);
        proof { lemma_appended_trans(d0, dj, diagnostics@, done_d, tabs(file, ls, j as int)); }
        if t.len() == 0 || t[0] == '#' {
            proof {
                let r = entities_block(file, ls, j + 1, end as int, ci);
                assert(here == (r.0, r.1, tabs(file, ls, j as int) + r.2, r.3));
                assert(done_d + tabs(file, ls, j as int) + r.2 =~= done_d + here.2);
                done_d = done_d + tabs(file, ls, j as int);
            }
            j += 1;
            continue;
        }
        if ind < child_indent {
            proof {
                assert(entries_view(entries@) + Seq::<EntryV>::empty() =~= entries_view(entries@));
                done_d = done_d + tabs(file, ls, j as int);
            }
            break;
        }
        let ghost dk = diagnostics@;
        let (ed, f) = parse_entity_declaration(parser, j, diagnostics);
        proof {
            lemma_appended_trans(d0, dk, diagnostics@, done_d + tabs(file, ls, j as int), tabs(file, ls, j as int));
        }
        let ghost before = entries@;
        let ghost edv = entity_decl_of(file, ls, j as int);
        match ed {
            Some(v) => {
                let key = v.id.clone();
                let span = v.span.clone();
                let e = FrontmatterEntry { key, value: FrontmatterValue::EntityDecl(v), span };
                entries.push(e);
                proof { lemma_entries_view_push(before, e); }
            },
            None => {},
        }
        fault = fault || f;
        proof {
            let r = entities_block(file, ls, j + 1, end as int, ci);
            assert(here.0 == match edv.0 { Some(v) => seq![entity_entry(v)] + r.0, None => r.0 });
            match edv.0 {
                Some(v) => { assert(entries_view(entries@) + r.0 =~= entries_view(before) + here.0); },
                None => { assert(entries_view(entries@) =~= entries_view(before)); },
            }
            assert(done_d + tabs(file, ls, j as int) + tabs(file, ls, j as int) + r.2 =~= done_d + here.2);
            done_d = done_d + tabs(file, ls, j as int) + tabs(file, ls, j as int);
        }
        j += 1;
    }
    (entries, j, fault)
}

/// Parse the fields of a `world:` block from line `start`.
fn parse_world_fields(parser: &Parser, start: usize, end: usize, child_indent: usize, diagnostics: &mut DiagnosticCollector)
    -> (r: (Vec<(String, Scalar)>, usize, bool))
    requires
        parser.wf(),
        start <= end <= parser.lines@.len(),
    ensures
        (pairs_view(r.0@), r.1 as int, r.2) == {
            let x = world_fields(parser.file_path@, parser.lines@, start as int, end as int, child_indent as nat);
            (x.0, x.1, x.3)
        },
        start <= r.1 <= end,
        appended(final(diagnostics)@, old(diagnostics)@,
            world_fields(parser.file_path@, parser.lines@, start as int, end as int, child_indent as nat).2),
{
    let ghost file = parser.file_path@;
    let ghost ls = parser.lines@;
    let ghost ci = child_indent as nat;
    let ghost total = world_fields(file, ls, start as int, end as int, ci);
    let ghost d0 = diagnostics@;
    let ghost mut done_d: Seq<PlainDiag> = Seq::empty();
    let mut fields: Vec<(String, Scalar)> = Vec::new();
    let mut fault = false;
    let mut j = start;
    proof {
        lemma_appended_empty(d0);
        assert(pairs_view(fields@) + total.0 =~= total.0);
        assert(done_d + total.2 =~= total.2);
    }
    loop
        invariant_except_break
            start <= j <= end <= ls.len(),
            file == parser.file_path@,
            ls == parser.lines@,
            parser.wf(),
            ci == child_indent as nat,
            total == world_fields(file, ls, start as int, end as int, ci),
            pairs_view(fields@) + world_fields(file, ls, j as int, end as int, ci).0 == total.0,
            world_fields(file, ls, j as int, end as int, ci).1 == total.1,
            appended(diagnostics@, d0, done_d),
            done_d + world_fields(file, ls, j as int, end as int, ci).2 == total.2,
            (fault || world_fields(file, ls, j as int, end as int, ci).3) == total.3,
        ensures
            start <= j <= end,
            pairs_view(fields@) == total.0,
            j == total.1,
            appended(diagnostics@, d0, total.2),
            fault == total.3,
        decreases end - j,
    {
        if j >= end {
            proof {
                assert(pairs_view(fields@) + Seq::<(Seq<char>, ScalarV)>::empty() =~= pairs_view(fields@));
                assert(done_d + Seq::<PlainDiag>::empty() =~= done_d);
            }
            break;
        }
        let ghost here = world_fields(file, ls, j as int, end as int, ci);
        let ghost dj = diagnostics@;
        let (t, ind) = scan_line(parser, j, diagnostics);
        proof { lemma_appended_trans(d0, dj, diagnostics@, done_d, tabs(file, ls, j as int)); }
        if t.len() == 0 {
            proof {
                let r = world_fields(file, ls, j + 1, end as int, ci);
                assert(here == (r.0, r.1, tabs(file, ls, j as int) + r.2, r.3));
                assert(done_d + tabs(file, ls, j as int) + r.2 =~= done_d + here.2);
                done_d = done_d + tabs(file, ls, j as int);
            }
            j += 1;
            continue;
        }
        if ind < child_indent {
            proof {
                assert(pairs_view(fields@) + Seq::<(Seq<char>, ScalarV)>::empty() =~= pairs_view(fields@));
                done_d = done_d + tabs(file, ls, j as int);
            }
            break;
        }
        let ghost before = fields@;
        proof { lemma_first_char_index(t@, ':'); }
        match find_char(&t, ':') {
            Some(c) => {
                let head = slice_chars(&t, 0, c);
                let tail = slice_chars(&t, c + 1, t.len());
                assert(head@ =~= t@.take(c as int));
                assert(tail@ =~= t@.skip(c + 1));
                let key = trim_chars(&head);
                let (v, f) = parse_scalar_value(&tail);
                if key.len() > 0 {
                    fields.push((string_from_chars(key), v));
                    fault = fault || f;
                    proof { assert(pairs_view(fields@) =~= pairs_view(before).push((key@, scalar_view(v)))); }
                }
            },
            None => {},
        }
        proof {
            let r = world_fields(file, ls, j + 1, end as int, ci);
            assert(pairs_view(fields@) + r.0 =~= pairs_view(before) + here.0);
            assert(done_d + tabs(file, ls, j as int) + r.2 =~= done_d + here.2);
            done_d = done_d + tabs(file, ls, j as int);
        }
        j += 1;
    }
    (fields, j, fault)
}


fn strip_start_chars(v: &Vec<char>, c: char) -> (r: Vec<char>)
    ensures
        r@ == strip_start(v@, c),
{
    let mut k: usize = 0;
    assert(v@.skip(0) =~= v@);
    while k < v.len() && v[k] == c
        invariant
            k <= v.len(),
            strip_start(v@, c) == strip_start(v@.skip(k as int), c),
        decreases v.len() - k,
    {
        proof { assert(v@.skip(k as int).drop_first() =~= v@.skip(k + 1)); }
        k += 1;
    }
    let r = slice_chars(v, k, v.len());
    assert(r@ =~= v@.skip(k as int));
    r
}

fn strip_end_chars(v: &Vec<char>, c: char) -> (r: Vec<char>)
    ensures
        r@ == strip_end(v@, c),
{
    let mut k: usize = v.len();
    assert(v@.take(v.len() as int) =~= v@);
    while k > 0 && v[k - 1] == c
        invariant
            k <= v.len(),
            strip_end(v@, c) == strip_end(v@.take(k as int), c),
        decreases k,
    {
        proof { assert(v@.take(k as int).drop_last() =~= v@.take(k - 1)); }
        k -= 1;
    }
    let r = slice_chars(v, 0, k);
    assert(r@ =~= v@.take(k as int));
    r
}

fn trim_matches_chars(v: &Vec<char>, c: char) -> (r: Vec<char>)
    ensures
        r@ == trim_matches(v@, c),
{
    let a = strip_start_chars(v, c);
    strip_end_chars(&a, c)
}

fn nesting_message(line: u32) -> (r: String)
    ensures
        r@ == msg_nesting(line as nat),
{
    let mut v: Vec<char> = Vec::new();
    crate::text::push_str(&mut v, "Frontmatter nesting exceeds 8 levels at line ");
    let n = decimal_chars(line as u64);
    crate::text::push_chars(&mut v, &n);
    crate::text::push_str(&mut v, ".");
    assert(v@ =~= msg_nesting(line as nat));
    string_from_chars(v)
}

pub open spec fn opt_entry_view(o: Option<FrontmatterEntry>) -> Option<EntryV> {
    match o {
        Some(e) => Some(entry_view(e)),
        None => None,
    }
}

fn inline_entries_exec(pairs: Vec<(String, Scalar)>, span: &Span) -> (r: Vec<FrontmatterEntry>)
    ensures
        entries_view(r@) == inline_entries(pairs_view(pairs@), span_view(*span)),
{
    let ghost pv = pairs_view(pairs@);
    let mut out: Vec<FrontmatterEntry> = Vec::new();
    let mut rest = pairs;
    let ghost orig = rest@;
    let mut taken: usize = 0;
    let mut reversed: Vec<(String, Scalar)> = Vec::new();
    // Move the pairs out in order: reverse once, then pop.
    while rest.len() > 0
        invariant
            reversed@.len() + rest@.len() == orig.len(),
            rest@ == orig.take(rest@.len() as int),
            forall|k: int| 0 <= k < reversed@.len() ==> reversed@[k] == orig[orig.len() - 1 - k],
        decreases rest.len(),
    {
        let x = rest.pop().unwrap();
        proof { assert(rest@ =~= orig.take(rest@.len() as int)); }
        reversed.push(x);
    }
    while reversed.len() > 0
        invariant
            reversed@.len() + out@.len() == orig.len(),
            forall|k: int| 0 <= k < reversed@.len() ==> reversed@[k] == orig[orig.len() - 1 - k],
            pv == pairs_view(orig),
            entries_view(out@) == inline_entries(pv.take(out@.len() as int), span_view(*span)),
        decreases reversed.len(),
    {
        let ghost n: int = out@.len() as int;
        let (k, v) = reversed.pop().unwrap();
        let ghost before = out@;
        let e = FrontmatterEntry { key: k, value: FrontmatterValue::Scalar(v), span: span.clone() };
        out.push(e);
        proof {
            lemma_entries_view_push(before, e);
            assert(orig[n as int] == (k, v));
            assert(pv.take(n + 1) =~= pv.take(n as int).push(pv[n as int]));
            assert(inline_entries(pv.take(n + 1), span_view(*span)) =~=
                inline_entries(pv.take(n as int), span_view(*span)).push(entry_view(e)));
        }
    }
    assert(pv.take(orig.len() as int) =~= pv);
    out
}

fn list_values_exec(items: &Vec<String>) -> (r: (Vec<FrontmatterValue>, bool))
    ensures
        (values_view(r.0@), r.1) == list_values(strings_view(items@)),
{
    let ghost iv = strings_view(items@);
    let mut out: Vec<FrontmatterValue> = Vec::new();
    let mut fault = false;
    let mut i: usize = 0;
    while i < items.len()
        invariant
            iv == strings_view(items@),
            i <= items@.len(),
            (values_view(out@), fault) == list_values(iv.take(i as int)),
        decreases items.len() - i,
    {
        proof {
            assert(iv.take(i + 1).drop_last() =~= iv.take(i as int));
            assert(iv.take(i + 1).last() == items@[i as int]@);
        }
        let c = chars_of(items[i].as_str());
        let (v, f) = parse_scalar_value(&c);
        let ghost before = out@;
        let x = FrontmatterValue::Scalar(v);
        out.push(x);
        proof { lemma_values_view_push(before, x); }
        fault = fault || f;
        i += 1;
    }
    assert(iv.take(items@.len() as int) =~= iv);
    (out, fault)
}

/// Parse a frontmatter entry (`key: value`) at line `i`; returns it (if
/// the line is one), the line after it, and whether cutting failed.
fn parse_entry(parser: &Parser, i: usize, end: usize, diagnostics: &mut DiagnosticCollector)
    -> (r: (Option<FrontmatterEntry>, usize, bool))
    requires
        parser.wf(),
        i < end <= parser.lines@.len(),
    ensures
        (opt_entry_view(r.0), r.1 as int, r.2) == {
            let x = entry_of(parser.file_path@, parser.lines@, i as int, end as int);
            (x.0, x.1, x.3)
        },
        i <= r.1 <= end + 1,
        r.0 is Some ==> i < r.1,
        r.0 is None ==> r.1 <= end,
        appended(final(diagnostics)@, old(diagnostics)@, entry_of(parser.file_path@, parser.lines@, i as int, end as int).2),
    decreases end - i, 0int,
{
    let ghost file = parser.file_path@;
    let ghost ls = parser.lines@;
    let ghost d0 = diagnostics@;
    let ghost spec_r = entry_of(file, ls, i as int, end as int);
    proof {
        reveal_strlit("import");
        reveal_strlit("world");
        reveal_strlit("types");
        reveal_strlit("entities");
    }
    let (t, ind) = scan_line(parser, i, diagnostics);
    let ghost d1 = diagnostics@;
    if ind / 2 > 8 {
        let message = nesting_message(parser.lines[i].line_number);
        diagnostics.error("URD104", message, parser.line_span(i));
        proof {
            assert(diagnostics@.last().code@ == "URD104"@);
            assert(crate::diagnostics::matches_plain(diagnostics@.last(), nesting_error(file, ls, i as int)));
            crate::content::lemma_append_one(d1, diagnostics@, nesting_error(file, ls, i as int));
            lemma_appended_trans(d0, d1, diagnostics@, tabs(file, ls, i as int), seq![nesting_error(file, ls, i as int)]);
            assert(tabs(file, ls, i as int) + seq![nesting_error(file, ls, i as int)] =~= tabs(file, ls, i as int).push(nesting_error(file, ls, i as int)));
        }
        return (None, i + 1, false);
    }
    proof { lemma_first_char_index(t@, ':'); }
    let c = match find_char(&t, ':') {
        Some(c) => c,
        None => { return (None, i, false); },
    };
    assert(c < t.len());
    let head = slice_chars(&t, 0, c);
    let tail = slice_chars(&t, c + 1, t.len());
    assert(head@ =~= t@.take(c as int));
    assert(tail@ =~= t@.skip(c + 1));
    let key = trim_chars(&head);
    if key.len() == 0 {
        return (None, i, false);
    }
    let ac = trim_chars(&tail);
    let span = parser.line_span(i);
    let value: FrontmatterValue;
    let next: usize;
    let fault: bool;
    if chars_are(&key, "import") {
        let path = trim_matches_chars(&trim_matches_chars(&ac, '"'), '\'');
        value = FrontmatterValue::ImportDecl(ImportDecl { path: string_from_chars(path), span: span.clone() });
        next = i + 1;
        fault = false;
    } else if chars_are(&key, "world") {
        let (fields, n, f) = parse_world_fields(parser, i + 1, end, ind + 2, diagnostics);
        proof { lemma_appended_trans(d0, d1, diagnostics@, tabs(file, ls, i as int), world_fields(file, ls, i + 1, end as int, (ind + 2) as nat).2); }
        let wspan = if n > i + 1 { parser.span_lines(i, n - 1) } else { span.clone() };
        value = FrontmatterValue::WorldBlock(WorldBlock { fields, span: wspan });
        next = n;
        fault = f;
    } else if chars_are(&key, "types") {
        let (es, n, f) = parse_types_block(parser, i + 1, end, ind + 2, diagnostics);
        proof { lemma_appended_trans(d0, d1, diagnostics@, tabs(file, ls, i as int), types_block(file, ls, i + 1, end as int, (ind + 2) as nat).2); }
        value = FrontmatterValue::Mapping(es);
        next = n;
        fault = f;
    } else if chars_are(&key, "entities") {
        let (es, n, f) = parse_entities_block(parser, i + 1, end, ind + 2, diagnostics);
        proof { lemma_appended_trans(d0, d1, diagnostics@, tabs(file, ls, i as int), entities_block(file, ls, i + 1, end as int, (ind + 2) as nat).2); }
        value = FrontmatterValue::Mapping(es);
        next = n;
        fault = f;
    } else if ac.len() == 0 {
        let (es, n, f) = parse_nested_entries(parser, i + 1, end, ind + 2, diagnostics);
        proof { lemma_appended_trans(d0, d1, diagnostics@, tabs(file, ls, i as int), nested_entries_of(file, ls, i + 1, end as int, (ind + 2) as nat).2); }
        value = FrontmatterValue::Mapping(es);
        next = n;
        fault = f;
    } else if ac[0] == '{' {
        let (pairs, f) = parse_inline_object(&ac);
        value = FrontmatterValue::InlineObject(inline_entries_exec(pairs, &span));
        next = i + 1;
        fault = f;
    } else if ac[0] == '[' {
        let items = parse_flow_list(&ac);
        let (vs, f) = list_values_exec(&items);
        value = FrontmatterValue::List(vs);
        next = i + 1;
        fault = f;
    } else if ac[0] == '@' {
        value = FrontmatterValue::Scalar(Scalar::String(string_from_chars(ac)));
        next = i + 1;
        fault = false;
    } else {
        let (v, f) = parse_scalar_value(&ac);
        value = FrontmatterValue::Scalar(v);
        next = i + 1;
        fault = f;
    }
    let e = FrontmatterEntry { key: string_from_chars(key), value, span };
    (Some(e), next, fault)
}

/// Parse the entries nested under a block key, from line `start`.
fn parse_nested_entries(parser: &Parser, start: usize, end: usize, child_indent: usize, diagnostics: &mut DiagnosticCollector)
    -> (r: (Vec<FrontmatterEntry>, usize, bool))
    requires
        parser.wf(),
        start <= end <= parser.lines@.len(),
    ensures
        (entries_view(r.0@), r.1 as int, r.2) == {
            let x = nested_entries_of(parser.file_path@, parser.lines@, start as int, end as int, child_indent as nat);
            (x.0, x.1, x.3)
        },
        start <= r.1 <= end + 1,
        appended(final(diagnostics)@, old(diagnostics)@,
            nested_entries_of(parser.file_path@, parser.lines@, start as int, end as int, child_indent as nat).2),
    decreases end - start, 1int,
{
    let ghost file = parser.file_path@;
    let ghost ls = parser.lines@;
    let ghost ci = child_indent as nat;
    let ghost total = nested_entries_of(file, ls, start as int, end as int, ci);
    let ghost d0 = diagnostics@;
    let ghost mut done_d: Seq<PlainDiag> = Seq::empty();
    let mut entries: Vec<FrontmatterEntry> = Vec::new();
    let mut fault = false;
    let mut j = start;
    proof {
        lemma_appended_empty(d0);
        assert(entries_view(entries@) + total.0 =~= total.0);
        assert(done_d + total.2 =~= total.2);
    }
    loop
        invariant_except_break
            start <= j <= end <= ls.len(),
            file == parser.file_path@,
            ls == parser.lines@,
            parser.wf(),
            ci == child_indent as nat,
            total == nested_entries_of(file, ls, start as int, end as int, ci),
            entries_view(entries@) + nested_entries_of(file, ls, j as int, end as int, ci).0 == total.0,
            nested_entries_of(file, ls, j as int, end as int, ci).1 == total.1,
            appended(diagnostics@, d0, done_d),
            done_d + nested_entries_of(file, ls, j as int, end as int, ci).2 == total.2,
            (fault || nested_entries_of(file, ls, j as int, end as int, ci).3) == total.3,
        ensures
            start <= j <= end + 1,
            entries_view(entries@) == total.0,
            j == total.1,
            appended(diagnostics@, d0, total.2),
            fault == total.3,
        decreases end - j,
    {
        if j >= end {
            proof {
                assert(entries_view(entries@) + Seq::<EntryV>::empty() =~= entries_view(entries@));
                assert(done_d + Seq::<PlainDiag>::empty() =~= done_d);
            }
            break;
        }
        let ghost here = nested_entries_of(file, ls, j as int, end as int, ci);
        let ghost dj = diagnostics@;
        let (t, ind) = scan_line(parser, j, diagnostics);
        proof { lemma_appended_trans(d0, dj, diagnostics@, done_d, tabs(file, ls, j as int)); }
        if t.len() == 0 {
            proof {
                let r = nested_entries_of(file, ls, j + 1, end as int, ci);
                assert(here == (r.0, r.1, tabs(file, ls, j as int) + r.2, r.3));
                assert(done_d + tabs(file, ls, j as int) + r.2 =~= done_d + here.2);
                done_d = done_d + tabs(file, ls, j as int);
            }
            j += 1;
            continue;
        }
        if ind < child_indent {
            proof {
                assert(entries_view(entries@) + Seq::<EntryV>::empty() =~= entries_view(entries@));
                done_d = done_d + tabs(file, ls, j as int);
            }
            break;
        }
        let ghost dk = diagnostics@;
        let (e, n, f) = parse_entry(parser, j, end, diagnostics);
        let ghost ev = entry_of(file, ls, j as int, end as int);
        proof { lemma_appended_trans(d0, dk, diagnostics@, done_d + tabs(file, ls, j as int), ev.2); }
        let next = match &e { Some(_) => n, None => n + 1 };
        let ghost before = entries@;
        match e {
            Some(x) => {
                entries.push(x);
                proof { lemma_entries_view_push(before, x); }
            },
            None => {},
        }
        fault = fault || f;
        if next > end {
            proof {
                assert(here == (match ev.0 { Some(v) => seq![v], None => Seq::<EntryV>::empty() }, next as int, tabs(file, ls, j as int) + ev.2, ev.3));
                match ev.0 {
                    Some(v) => { assert(entries_view(entries@) =~= entries_view(before).push(v)); },
                    None => { assert(entries_view(entries@) =~= entries_view(before)); },
                }
                assert(entries_view(before) + here.0 == total.0);
                done_d = done_d + tabs(file, ls, j as int) + ev.2;
                assert(done_d == done_d + Seq::<PlainDiag>::empty());
            }
            j = next;
            break;
        }
        proof {
            let r = nested_entries_of(file, ls, next as int, end as int, ci);
            match ev.0 {
                Some(v) => { assert(entries_view(entries@) + r.0 =~= entries_view(before) + here.0); },
                None => { assert(entries_view(entries@) =~= entries_view(before)); },
            }
            assert(done_d + tabs(file, ls, j as int) + ev.2 + r.2 =~= done_d + here.2);
            done_d = done_d + tabs(file, ls, j as int) + ev.2;
        }
        j = next;
    }
    (entries, j, fault)
}


// ── The frontmatter block ──

pub open spec fn msg_unrecognised_fm(line: nat, display: Seq<char>) -> Seq<char> {
    "Unrecognised frontmatter syntax at line "@ + decimal(line) + ": '"@ + display + "'."@
}

/// A line the frontmatter skips before checking it: blank, or a `#`
/// comment.
pub open spec fn fm_skipped(raw: Seq<char>) -> bool {
    trim(raw).len() == 0 || (trim_start(raw).len() > 0 && trim_start(raw)[0] == '#')
}

/// One checked frontmatter line `j` (not blank, not a comment): the
/// entry it starts (if any), the line after it, what it reports, and
/// whether cutting failed. Nesting beyond eight levels and rejected YAML
/// constructs are reported and the line passed over; a line that is no
/// entry is reported as URD111.
pub open spec fn fm_step(file: Seq<char>, ls: Seq<LineInfo>, j: int, end: int) -> (Option<EntryV>, int, Seq<PlainDiag>, bool) {
    let d = tabs(file, ls, j);
    let p = proc_line(ls, j);
    let t = trim(p);
    if indent_bytes(p) / 2 > 8 {
        (None, j + 1, d.push(nesting_error(file, ls, j)), false)
    } else {
        match yaml_rejection(t) {
            Some((code, msg)) => (None, j + 1, d.push((Severity::Error, code, msg, line_span_v(file, ls[j]))), false),
            None => {
                let e = entry_of(file, ls, j, end);
                match e.0 {
                    Some(v) => (Some(v), e.1, d + e.2, e.3),
                    None => {
                        let k = e.1;
                        if j <= k < end {
                            let raw = trim(ls[j].text@);
                            let u = (Severity::Error, "URD111"@, msg_unrecognised_fm(ls[k].line_number as nat,
                                crate::content::display_of(raw)), line_span_v(file, ls[k]));
                            (None, k + 1, d + e.2 + seq![u], e.3 || crate::content::display_fault(raw))
                        } else {
                            (None, k, d + e.2, e.3)
                        }
                    },
                }
            },
        }
    }
}

pub open spec fn opt_seq_entry(o: Option<EntryV>) -> Seq<EntryV> {
    match o {
        Some(v) => seq![v],
        None => Seq::empty(),
    }
}

/// The entries of the frontmatter lines `j..end`, with what they report.
pub open spec fn fm_entries(file: Seq<char>, ls: Seq<LineInfo>, j: int, end: int) -> Run<EntryV>
    decreases end - j,
{
    if j >= end {
        (Seq::empty(), j, Seq::empty(), false)
    } else if fm_skipped(ls[j].text@) {
        fm_entries(file, ls, j + 1, end)
    } else {
        let s = fm_step(file, ls, j, end);
        if j < s.1 <= end {
            let r = fm_entries(file, ls, s.1, end);
            (opt_seq_entry(s.0) + r.0, r.1, s.2 + r.2, s.3 || r.3)
        } else {
            (opt_seq_entry(s.0), s.1, s.2, s.3)
        }
    }
}

/// The span of the frontmatter region: its lines, or the line where it
/// would start when it is empty.
pub open spec fn fm_span(file: Seq<char>, ls: Seq<LineInfo>, start: int, end: int) -> SpanV {
    if start < end {
        span_lines_v(file, ls[start], ls[end - 1])
    } else {
        line_span_v(file, ls[if start < ls.len() - 1 { start } else { ls.len() - 1 }])
    }
}

/// Parse one checked frontmatter line (see `fm_step`).
fn parse_fm_line(parser: &Parser, i: usize, end: usize, diagnostics: &mut DiagnosticCollector)
    -> (r: (Option<FrontmatterEntry>, usize, bool))
    requires
        parser.wf(),
        i < end <= parser.lines@.len(),
    ensures
        (opt_entry_view(r.0), r.1 as int, r.2) == {
            let x = fm_step(parser.file_path@, parser.lines@, i as int, end as int);
            (x.0, x.1, x.3)
        },
        i < r.1 <= end + 1,
        appended(final(diagnostics)@, old(diagnostics)@, fm_step(parser.file_path@, parser.lines@, i as int, end as int).2),
{
    let ghost file = parser.file_path@;
    let ghost ls = parser.lines@;
    let ghost d0 = diagnostics@;
    let (t, ind) = scan_line(parser, i, diagnostics);
    let ghost d1 = diagnostics@;
    if ind / 2 > 8 {
        let message = nesting_message(parser.lines[i].line_number);
        diagnostics.error("URD104", message, parser.line_span(i));
        proof {
            crate::content::lemma_append_one(d1, diagnostics@, nesting_error(file, ls, i as int));
            lemma_appended_trans(d0, d1, diagnostics@, tabs(file, ls, i as int), seq![nesting_error(file, ls, i as int)]);
            assert(tabs(file, ls, i as int) + seq![nesting_error(file, ls, i as int)] =~= tabs(file, ls, i as int).push(nesting_error(file, ls, i as int)));
        }
        return (None, i + 1, false);
    }
    if check_yaml_rejections(parser, i, &t, diagnostics) {
        proof {
            let y = yaml_rejection(t@).unwrap();
            let yd = seq![(Severity::Error, y.0, y.1, line_span_v(file, ls[i as int]))];
            lemma_appended_trans(d0, d1, diagnostics@, tabs(file, ls, i as int), yd);
            assert(tabs(file, ls, i as int) + yd =~= tabs(file, ls, i as int).push(yd[0]));
        }
        return (None, i + 1, false);
    }
    proof { assert(diagnostics@ == d1) by { assert(diagnostics@.take(d1.len() as int) == d1); } }
    let (e, n, f) = parse_entry(parser, i, end, diagnostics);
    let ghost ev = entry_of(file, ls, i as int, end as int);
    proof { lemma_appended_trans(d0, d1, diagnostics@, tabs(file, ls, i as int), ev.2); }
    match e {
        Some(x) => (Some(x), n, f),
        None => {
            let ghost d3 = diagnostics@;
            let raw_trimmed = trim_chars(&parser.lines[i].text);
            proof {
                crate::text::lemma_trim_start(ls[i as int].text@);
                crate::text::lemma_trim_end(trim_start(ls[i as int].text@));
                assert(ls[i as int].text@.len() <= crate::graph::MAX_FILE_SIZE);
            }
            let line_num = parser.lines[n].line_number;
            let (display, cut) = crate::content::truncate_for_display(&raw_trimmed);
            let mut m = chars_of("Unrecognised frontmatter syntax at line ");
            let num = decimal_chars(line_num as u64);
            crate::text::push_chars(&mut m, &num);
            crate::text::push_str(&mut m, ": '");
            crate::text::push_chars(&mut m, &display);
            crate::text::push_str(&mut m, "'.");
            let ghost u = (Severity::Error, "URD111"@, msg_unrecognised_fm(ls[n as int].line_number as nat,
                crate::content::display_of(raw_trimmed@)), line_span_v(file, ls[n as int]));
            proof {
                assert(m@ =~= msg_unrecognised_fm(line_num as nat, display@));
            }
            diagnostics.error("URD111", string_from_chars(m), parser.line_span(n));
            proof {
                crate::content::lemma_append_one(d3, diagnostics@, u);
                lemma_appended_trans(d0, d3, diagnostics@, tabs(file, ls, i as int) + ev.2, seq![u]);
            }
            (None, n + 1, f || cut)
        },
    }
}

/// Parse the frontmatter region: lines `start` up to (not including) the
/// closing delimiter at `end`. A line that could not be cut where the
/// grammar cuts it marks the parser's `slice_fault`.
pub fn parse_frontmatter(parser: &mut Parser, start: usize, end: usize, diagnostics: &mut DiagnosticCollector)
    -> (fm: Frontmatter)
    requires
        old(parser).wf(),
        old(parser).lines@.len() >= 1,
        start <= end <= old(parser).lines@.len(),
    ensures
        final(parser).wf(),
        final(parser).same_source(*old(parser)),
        final(parser).current_line == old(parser).current_line,
        entries_view(fm.entries@) == fm_entries(old(parser).file_path@, old(parser).lines@, start as int, end as int).0,
        span_view(fm.span) == fm_span(old(parser).file_path@, old(parser).lines@, start as int, end as int),
        appended(final(diagnostics)@, old(diagnostics)@, fm_entries(old(parser).file_path@, old(parser).lines@, start as int, end as int).2),
        final(parser).slice_fault == (old(parser).slice_fault || fm_entries(old(parser).file_path@, old(parser).lines@, start as int, end as int).3),
{
    let ghost file = parser.file_path@;
    let ghost ls = parser.lines@;
    let span = if start < end {
        parser.span_lines(start, end - 1)
    } else {
        let k = if start < parser.lines.len() - 1 { start } else { parser.lines.len() - 1 };
        parser.line_span(k)
    };
    let ghost total = fm_entries(file, ls, start as int, end as int);
    let ghost d0 = diagnostics@;
    let ghost mut done_d: Seq<PlainDiag> = Seq::empty();
    let mut entries: Vec<FrontmatterEntry> = Vec::new();
    let mut fault = false;
    let mut i = start;
    proof {
        lemma_appended_empty(d0);
        assert(entries_view(entries@) + total.0 =~= total.0);
        assert(done_d + total.2 =~= total.2);
    }
    loop
        invariant_except_break
            start <= i <= end <= ls.len(),
            file == parser.file_path@,
            ls == parser.lines@,
            parser.wf(),
            parser.same_source(*old(parser)),
            parser.current_line == old(parser).current_line,
            parser.slice_fault == old(parser).slice_fault,
            total == fm_entries(file, ls, start as int, end as int),
            entries_view(entries@) + fm_entries(file, ls, i as int, end as int).0 == total.0,
            appended(diagnostics@, d0, done_d),
            done_d + fm_entries(file, ls, i as int, end as int).2 == total.2,
            (fault || fm_entries(file, ls, i as int, end as int).3) == total.3,
        ensures
            parser.wf(),
            parser.same_source(*old(parser)),
            parser.current_line == old(parser).current_line,
            parser.slice_fault == old(parser).slice_fault,
            entries_view(entries@) == total.0,
            appended(diagnostics@, d0, total.2),
            fault == total.3,
        decreases end - i,
    {
        if i >= end {
            proof {
                assert(entries_view(entries@) + Seq::<EntryV>::empty() =~= entries_view(entries@));
                assert(done_d + Seq::<PlainDiag>::empty() =~= done_d);
            }
            break;
        }
        let raw_trimmed = trim_chars(&parser.lines[i].text);
        let raw_start = crate::text::trim_start_chars(&parser.lines[i].text);
        if raw_trimmed.len() == 0 || (raw_start.len() > 0 && raw_start[0] == '#') {
            i += 1;
            continue;
        }
        let ghost here = fm_entries(file, ls, i as int, end as int);
        let ghost sv = fm_step(file, ls, i as int, end as int);
        let ghost dk = diagnostics@;
        let (e, n, f) = parse_fm_line(parser, i, end, diagnostics);
        proof { lemma_appended_trans(d0, dk, diagnostics@, done_d, sv.2); }
        let ghost before = entries@;
        match e {
            Some(x) => {
                entries.push(x);
                proof {
                    lemma_entries_view_push(before, x);
                    assert(entries_view(entries@) =~= entries_view(before) + opt_seq_entry(sv.0));
                }
            },
            None => {
                proof { assert(entries_view(entries@) =~= entries_view(before) + opt_seq_entry(sv.0)); }
            },
        }
        fault = fault || f;
        if n > end {
            proof {
                assert(entries_view(entries@) == total.0);
                done_d = done_d + sv.2;
            }
            break;
        }
        proof {
            let r = fm_entries(file, ls, n as int, end as int);
            assert(entries_view(entries@) + r.0 =~= entries_view(before) + here.0);
            assert(done_d + sv.2 + r.2 =~= done_d + here.2);
            done_d = done_d + sv.2;
        }
        i = n;
    }
    if fault {
        parser.slice_fault = true;
    }
    Frontmatter { entries, span }
}

/// The enum values written in a signature are kept: `enum(v1, …, vn)`
/// declares the values `v1` … `vn`, each trimmed, and
/// `list(enum(v1, …, vn))` declares a list whose elements take those
/// values.
pub proof fn lemma_signature_keeps_enum_values(body: Seq<char>)
    ensures
        signature("enum("@ + body + ")"@) == (SigV { values: Some(trimmed_pieces(body)), ..sig("enum"@) }),
        signature("list(enum("@ + body + "))"@) == (SigV {
            element_type: Some("enum"@), element_values: Some(trimmed_pieces(body)), ..sig("list"@)
        }),
{
    reveal_strlit("enum(");
    reveal_strlit("list(");
    reveal_strlit("ref(");
    reveal_strlit(")");
    reveal_strlit("))");
    reveal_strlit("list(enum(");
    let t1 = "enum("@ + body + ")"@;
    assert(!crate::text::is_white(t1[0]));
    assert(!crate::text::is_white(t1[t1.len() - 1]));
    lemma_trim_plain(t1);
    assert(t1.take(5) =~= "enum("@);
    assert(t1.skip(t1.len() - 1) =~= ")"@);
    assert(inside(t1, 5) =~= body);
    let t2 = "list(enum("@ + body + "))"@;
    assert(!crate::text::is_white(t2[0]));
    assert(!crate::text::is_white(t2[t2.len() - 1]));
    lemma_trim_plain(t2);
    assert(t2.take(5) =~= "list("@);
    assert(t2.skip(t2.len() - 1) =~= ")"@);
    assert(!starts_with(t2, "enum("@)) by { if starts_with(t2, "enum("@) { assert(t2.take(5)[0] == t2[0]); } }
    assert(!starts_with(t2, "ref("@)) by { if starts_with(t2, "ref("@) { assert(t2.take(4)[0] == t2[0]); } }
    assert(inside(t2, 5) =~= t1);
}

/// The type a reference signature names is kept: `ref(T)` refers to the
/// trimmed `T`, and `list(ref(T))` is a list of references to it.
pub proof fn lemma_signature_keeps_ref_type(body: Seq<char>)
    ensures
        signature("ref("@ + body + ")"@) == (SigV { ref_type: Some(trim(body)), ..sig("ref"@) }),
        signature("list(ref("@ + body + "))"@) == (SigV {
            element_type: Some("ref"@), element_ref_type: Some(trim(body)), ..sig("list"@)
        }),
{
    reveal_strlit("enum(");
    reveal_strlit("list(");
    reveal_strlit("ref(");
    reveal_strlit(")");
    reveal_strlit("))");
    reveal_strlit("list(ref(");
    let t1 = "ref("@ + body + ")"@;
    assert(!crate::text::is_white(t1[0]));
    assert(!crate::text::is_white(t1[t1.len() - 1]));
    lemma_trim_plain(t1);
    assert(t1.take(4) =~= "ref("@);
    assert(t1.skip(t1.len() - 1) =~= ")"@);
    assert(!starts_with(t1, "enum("@)) by { if starts_with(t1, "enum("@) { assert(t1.take(5)[0] == t1[0]); } }
    assert(inside(t1, 4) =~= body);
    let t2 = "list(ref("@ + body + "))"@;
    assert(!crate::text::is_white(t2[0]));
    assert(!crate::text::is_white(t2[t2.len() - 1]));
    lemma_trim_plain(t2);
    assert(t2.take(5) =~= "list("@);
    assert(t2.skip(t2.len() - 1) =~= ")"@);
    assert(!starts_with(t2, "enum("@)) by { if starts_with(t2, "enum("@) { assert(t2.take(5)[0] == t2[0]); } }
    assert(!starts_with(t2, "ref("@)) by { if starts_with(t2, "ref("@) { assert(t2.take(4)[0] == t2[0]); } }
    assert(inside(t2, 5) =~= t1);
    assert(!starts_with(t1, "enum("@)) by { if starts_with(t1, "enum("@) { assert(t1.take(5)[0] == t1[0]); } }
}

/// Text that neither starts nor ends with white space is its own trim.
proof fn lemma_trim_plain(t: Seq<char>)
    requires
        t.len() > 0,
        !crate::text::is_white(t[0]),
        !crate::text::is_white(t[t.len() - 1]),
    ensures
        trim(t) == t,
{
    crate::text::lemma_trim_start(t);
    assert(crate::text::trim_start(t) == t);
    crate::text::lemma_trim_end(t);
    assert(crate::text::trailing_white(t) == 0);
    assert(t.take(t.len() as int) =~= t);
}

} // verus!
