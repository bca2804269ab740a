//! IMPORT path handling: splitting, normalising and pre-validating the
//! paths that `import:` declarations name, and the file-reading interface
//! through which imported files are loaded.
//!
//! Diagnostic code range: URD200–URD299

use vstd::prelude::*;
use crate::diagnostics::{appended, lemma_appended_empty, lemma_appended_trans, DiagnosticCollector, PlainDiag, Severity};
use crate::span::{Span, span_view};
use crate::text::{
    lemma_lex_order_antisym, lemma_lex_order_trans, lex_order, chars_of, decimal, decimal_chars, ends_with, join_chars, join_with, last_char_index, slice_chars,
    lemma_last_char_index, push_chars, push_str, rfind_char, split_chars, split_on, starts_with,
    str_ends_with, str_starts_with, string_from_chars, views,
};

verus! {

broadcast use vstd::string::group_string_axioms;

// ── Filesystem abstraction ──

/// Errors that can occur when reading a file from disk.
#[derive(Debug, Clone)]
pub enum FileReadError {
    NotFound,
    PermissionDenied,
    InvalidUtf8,
    IoError(String),
    /// File exceeds the maximum size limit. Contains the file size in bytes.
    TooLarge(usize),
}

/// Abstraction over filesystem operations for testability.
///
/// Production code reads from the operating system. Tests provide an
/// in-memory implementation so that IMPORT can be exercised without real I/O.
pub trait FileReader {
    /// Read a file at the given filesystem path, returning its contents.
    fn read_file(&self, fs_path: &str) -> Result<String, FileReadError>;

    /// Discover canonical filename casing on a case-insensitive filesystem.
    ///
    /// Returns `Some(canonical_name)` if the file exists at `dir/filename`
    /// but with different casing than `filename`. Returns `None` if casing
    /// matches, the file does not exist, or the platform provides no way
    /// to detect casing differences.
    fn canonical_filename(&self, dir: &str, filename: &str) -> Option<String>;
}

/// The reader of single-file mode: no file can be read, so every import is
/// reported as not found.
pub struct StubFileReader;

impl FileReader for StubFileReader {
    fn read_file(&self, _fs_path: &str) -> Result<String, FileReadError> {
        Err(FileReadError::NotFound)
    }

    fn canonical_filename(&self, _dir: &str, _filename: &str) -> Option<String> {
        None
    }
}

// ── Path utilities ──

/// The directory part of a path, up to and including its last `/`;
/// empty when the path has no `/`.
pub open spec fn dir_of(p: Seq<char>) -> Seq<char> {
    match last_char_index(p, '/') {
        Some(i) => p.take(i + 1),
        None => Seq::empty(),
    }
}

/// The file-name part of a path, after its last `/`.
pub open spec fn filename_of(p: Seq<char>) -> Seq<char> {
    match last_char_index(p, '/') {
        Some(i) => p.skip(i + 1),
        None => p,
    }
}

/// Extract the directory part of a path. Returns `""` if no directory.
pub fn path_dir(path: &str) -> (d: &str)
    ensures
        d@ == dir_of(path@),
{
    let v = chars_of(path);
    proof { lemma_last_char_index(v@, '/'); }
    match rfind_char(&v, '/') {
        Some(pos) => {
            assert(pos < v.len());
            path.substring_char(0, pos + 1)
        },
        None => {
            proof { reveal_strlit(""); }
            ""
        },
    }
}

/// Extract the filename part of a path (after the last `/`).
pub fn path_filename(path: &str) -> (f: &str)
    ensures
        f@ == filename_of(path@),
{
    let v = chars_of(path);
    proof { lemma_last_char_index(v@, '/'); }
    match rfind_char(&v, '/') {
        Some(pos) => {
            assert(pos < v.len());
            path.substring_char(pos + 1, v.len())
        },
        None => path,
    }
}

/// A path is its directory part followed by its file name, and the file
/// name holds no `/`.
pub proof fn lemma_dir_filename(p: Seq<char>)
    ensures
        dir_of(p) + filename_of(p) == p,
        forall|j: int| 0 <= j < filename_of(p).len() ==> filename_of(p)[j] != '/',
{
    lemma_last_char_index(p, '/');
    match last_char_index(p, '/') {
        Some(i) => {
            assert(p.take(i + 1) + p.skip(i + 1) =~= p);
        },
        None => {
            assert(Seq::<char>::empty() + p =~= p);
        },
    }
}

/// Resolve `.` and `..` segments on a stack of segments, left to right;
/// `None` when a `..` would leave the root. Empty segments are dropped.
pub open spec fn collapse_segments(segs: Seq<Seq<char>>) -> Option<Seq<Seq<char>>>
    decreases segs.len(),
{
    if segs.len() == 0 {
        Some(Seq::empty())
    } else {
        match collapse_segments(segs.drop_last()) {
            None => None,
            Some(stack) => {
                let g = segs.last();
                if g == ".."@ {
                    if stack.len() == 0 { None } else { Some(stack.drop_last()) }
                } else if g == "."@ || g.len() == 0 {
                    Some(stack)
                } else {
                    Some(stack.push(g))
                }
            },
        }
    }
}

/// The normalised form of a path, or `None` if it climbs above the root.
pub open spec fn collapsed(p: Seq<char>) -> Option<Seq<char>> {
    match collapse_segments(split_on(p, '/')) {
        Some(stack) => Some(join_with(stack, "/"@)),
        None => None,
    }
}

proof fn lemma_collapse_none_extends(segs: Seq<Seq<char>>, n: int)
    requires
        0 <= n <= segs.len(),
        collapse_segments(segs.take(n)) is None,
    ensures
        collapse_segments(segs) is None,
    decreases segs.len() - n,
{
    if n < segs.len() {
        assert(segs.take(n + 1).drop_last() =~= segs.take(n));
        lemma_collapse_none_extends(segs, n + 1);
    } else {
        assert(segs.take(n) =~= segs);
    }
}

/// Collapse `.` and `..` segments in a path.
/// Returns `None` if the path would escape above the project root.
pub fn collapse_dotdot(path: &str) -> (r: Option<String>)
    ensures
        match r {
            Some(s) => collapsed(path@) == Some(s@),
            None => collapsed(path@) is None,
        },
{
    let v = chars_of(path);
    let parts = split_chars(&v, '/');
    let ghost segs = views(parts@);
    let mut stack: Vec<Vec<char>> = Vec::new();
    let mut i: usize = 0;
    while i < parts.len()
        invariant
            i <= parts.len(),
            segs == views(parts@),
            segs == split_on(path@, '/'),
            segs.len() == parts@.len(),
            collapse_segments(segs.take(i as int)) == Some(views(stack@)),
        decreases parts.len() - i,
    {
        let ghost before = stack@;
        proof {
            assert(segs.take(i + 1).drop_last() =~= segs.take(i as int));
            assert(segs.take(i + 1).last() == parts@[i as int]@);
        }
        let seg = &parts[i];
        let is_up = seg.len() == 2 && seg[0] == '.' && seg[1] == '.';
        let is_here = seg.len() == 1 && seg[0] == '.';
        proof {
            reveal_strlit("..");
            reveal_strlit(".");
            assert(is_up == (seg@ == ".."@)) by {
                if is_up { assert(seg@ =~= ".."@); }
            }
            assert(is_here == (seg@ == "."@)) by {
                if is_here { assert(seg@ =~= "."@); }
            }
        }
        if is_up {
            if stack.len() == 0 {
                proof { lemma_collapse_none_extends(segs, i + 1); }
                return None;
            }
            stack.pop();
            proof { assert(views(stack@) =~= views(before).drop_last()); }
        } else if !is_here && seg.len() > 0 {
            stack.push(seg.clone());
            proof { assert(views(stack@) =~= views(before).push(seg@)); }
        }
        i += 1;
    }
    proof {
        assert(segs.take(parts.len() as int) =~= segs);
    }
    let joined = join_chars(&stack, "/");
    Some(string_from_chars(joined))
}

// ── Path validation ──

/// A Windows drive prefix such as `C:`.
pub open spec fn has_drive_prefix(p: Seq<char>) -> bool {
    p.len() >= 2 && (('a' <= p[0] && p[0] <= 'z') || ('A' <= p[0] && p[0] <= 'Z')) && p[1] == ':'
}

/// What pre-validation reports for a written import path: `None` when it
/// passes; otherwise the single error, checked in this order: empty
/// (URD211), absolute (URD209), missing `.urd.md` extension (URD210).
pub open spec fn import_path_problem(written: Seq<char>, source_file: Seq<char>, span: Span) -> Option<PlainDiag> {
    if written.len() == 0 {
        Some((Severity::Error, "URD211"@,
            "Empty import path at "@ + source_file + ":"@ + decimal(span.start_line as nat) + "."@, span_view(span)))
    } else if starts_with(written, "/"@) || has_drive_prefix(written) {
        Some((Severity::Error, "URD209"@,
            "Absolute import paths are not supported: '"@ + written + "'."@, span_view(span)))
    } else if !ends_with(written, ".urd.md"@) {
        Some((Severity::Error, "URD210"@,
            "Import path '"@ + written + "' does not have the .urd.md extension."@, span_view(span)))
    } else {
        None
    }
}

pub open spec fn opt_seq(e: Option<PlainDiag>) -> Seq<PlainDiag> {
    match e {
        Some(d) => seq![d],
        None => Seq::empty(),
    }
}

fn record_error(diagnostics: &mut DiagnosticCollector, code: &str, message: Vec<char>, span: &Span)
    ensures
        appended(final(diagnostics)@, old(diagnostics)@, seq![(Severity::Error, code@, message@, span_view(*span))]),
{
    let ghost before = diagnostics@;
    diagnostics.error(code, string_from_chars(message), span.clone());
    proof {
        assert(diagnostics@.take(before.len() as int) == before);
        assert(diagnostics@[before.len() as int] == diagnostics@.last());
    }
}

/// Validate an import path after trimming and backslash normalisation.
/// Checks run on `written_path`, before filesystem access.
/// Returns `true` if the path passes all pre-validation checks.
pub fn validate_import_path(
    written_path: &str,
    source_file: &str,
    import_span: &Span,
    diagnostics: &mut DiagnosticCollector,
) -> (ok: bool)
    ensures
        ok == import_path_problem(written_path@, source_file@, *import_span) is None,
        appended(final(diagnostics)@, old(diagnostics)@,
            opt_seq(import_path_problem(written_path@, source_file@, *import_span))),
{
    let v = chars_of(written_path);
    proof { lemma_appended_empty(diagnostics@); }
    if v.len() == 0 {
        let mut m = chars_of("Empty import path at ");
        push_str(&mut m, source_file);
        push_str(&mut m, ":");
        let line = decimal_chars(import_span.start_line as u64);
        push_chars(&mut m, &line);
        push_str(&mut m, ".");
        record_error(diagnostics, "URD211", m, import_span);
        return false;
    }
    let drive = v.len() >= 2 && (('a' <= v[0] && v[0] <= 'z') || ('A' <= v[0] && v[0] <= 'Z')) && v[1] == ':';
    if str_starts_with(written_path, "/") || drive {
        let mut m = chars_of("Absolute import paths are not supported: '");
        push_str(&mut m, written_path);
        push_str(&mut m, "'.");
        record_error(diagnostics, "URD209", m, import_span);
        return false;
    }
    if !str_ends_with(written_path, ".urd.md") {
        let mut m = chars_of("Import path '");
        push_str(&mut m, written_path);
        push_str(&mut m, "' does not have the .urd.md extension.");
        record_error(diagnostics, "URD210", m, import_span);
        return false;
    }
    true
}

/// The written path without a leading `./`.
pub open spec fn strip_dot_slash(p: Seq<char>) -> Seq<char> {
    if starts_with(p, "./"@) { p.skip(2) } else { p }
}

/// The path an import resolves to: the written path (without a leading
/// `./`) appended to the importer's directory, then normalised.
pub open spec fn resolved_import(written: Seq<char>, importer: Seq<char>) -> Option<Seq<char>> {
    collapsed(dir_of(importer) + strip_dot_slash(written))
}

/// Resolve an import path relative to the importing file.
/// Returns the normalised path (relative to entry directory).
/// Emits URD208 and returns `None` if the path escapes the project root.
pub fn resolve_import_path(
    written_path: &str,
    importer_path: &str,
    import_span: &Span,
    diagnostics: &mut DiagnosticCollector,
) -> (r: Option<String>)
    ensures
        match r {
            Some(p) => resolved_import(written_path@, importer_path@) == Some(p@)
                && final(diagnostics)@ == old(diagnostics)@,
            None => resolved_import(written_path@, importer_path@) is None
                && appended(final(diagnostics)@, old(diagnostics)@, seq![(Severity::Error, "URD208"@,
                    "Import path '"@ + written_path@ + "' resolves outside the project root."@, span_view(*import_span))]),
        },
{
    let stripped = if str_starts_with(written_path, "./") {
        proof { reveal_strlit("./"); }
        written_path.substring_char(2, chars_of(written_path).len())
    } else {
        written_path
    };
    let dir = path_dir(importer_path);
    let mut joined = chars_of(dir);
    push_str(&mut joined, stripped);
    let joined_str = string_from_chars(joined);
    match collapse_dotdot(joined_str.as_str()) {
        Some(normalised) => Some(normalised),
        None => {
            let mut m = chars_of("Import path '");
            push_str(&mut m, written_path);
            push_str(&mut m, "' resolves outside the project root.");
            record_error(diagnostics, "URD208", m, import_span);
            None
        },
    }
}

// ── Discovery decisions ──
//
// Discovering imports alternates decisions with work done outside the
// library (reading files, parsing them, growing the dependency graph).
// The decisions are made here; the caller performs each step's action.

/// The path as written in an `import:` declaration, trimmed and with
/// backslashes turned into forward slashes.
pub open spec fn written_path_of(decl_path: Seq<char>) -> Seq<char> {
    crate::text::replace_all(crate::text::trim(decl_path), "\\"@, "/"@)
}

/// The first position of `x` in `s`.
pub open spec fn first_index_of(s: Seq<Seq<char>>, x: Seq<char>) -> Option<int>
    decreases s.len(),
{
    if s.len() == 0 {
        None
    } else if s[0] == x {
        Some(0)
    } else {
        match first_index_of(s.drop_first(), x) {
            Some(i) => Some(i + 1),
            None => None,
        }
    }
}

proof fn lemma_first_index_of(s: Seq<Seq<char>>, x: Seq<char>)
    ensures
        match first_index_of(s, x) {
            Some(i) => 0 <= i < s.len() && s[i] == x && forall|j: int| 0 <= j < i ==> s[j] != x,
            None => forall|j: int| 0 <= j < s.len() ==> s[j] != x,
        },
    decreases s.len(),
{
    if s.len() > 0 {
        lemma_first_index_of(s.drop_first(), x);
        if s[0] != x {
            assert forall|j: int| 0 < j < s.len() implies s[j] == s.drop_first()[j - 1] by {}
        }
    }
}

/// What to do with an import declaration.
pub enum ImportStep {
    /// Nothing: the declaration was rejected and its error recorded.
    Stop,
    /// The file is loaded already: only add an edge to it.
    Link(String),
    /// Read the file at `fs_path`; it is known in the graph as `normalised`.
    Read { normalised: String, fs_path: String },
}

pub enum ImportStepV {
    Stop,
    Link(Seq<char>),
    Read(Seq<char>, Seq<char>),
}

pub open spec fn import_step_view(s: ImportStep) -> ImportStepV {
    match s {
        ImportStep::Stop => ImportStepV::Stop,
        ImportStep::Link(p) => ImportStepV::Link(p@),
        ImportStep::Read { normalised, fs_path } => ImportStepV::Read(normalised@, fs_path@),
    }
}

pub open spec fn msg_cycle(cycle: Seq<Seq<char>>) -> Seq<char> {
    "Circular import detected: "@ + join_with(cycle, " \u{2192} "@) + "."@
}

/// The decision for one import declaration of `importer`, given the chain
/// of files being imported (`stack`) and the files already loaded: the
/// path is checked, resolved, and refused when it names its importer
/// (URD207), closes a cycle (URD202) or would exceed the depth limit
/// (URD204); a loaded file is linked, any other file is read from
/// `entry_dir`.
pub open spec fn import_plan(importer: Seq<char>, decl_path: Seq<char>, span: Span, entry_dir: Seq<char>,
    stack: Seq<Seq<char>>, visited: Seq<Seq<char>>) -> (ImportStepV, Seq<PlainDiag>)
{
    let written = written_path_of(decl_path);
    match import_path_problem(written, importer, span) {
        Some(d) => (ImportStepV::Stop, seq![d]),
        None => match resolved_import(written, importer) {
            None => (ImportStepV::Stop, seq![(Severity::Error, "URD208"@,
                "Import path '"@ + written + "' resolves outside the project root."@, span_view(span))]),
            Some(n) => if n == importer {
                (ImportStepV::Stop, seq![(Severity::Error, "URD207"@, "File imports itself: '"@ + written + "'."@, span_view(span))])
            } else {
                match first_index_of(stack, n) {
                    Some(pos) => (ImportStepV::Stop, seq![(Severity::Error, "URD202"@,
                        msg_cycle(stack.skip(pos).push(n)), span_view(span))]),
                    None => if stack.len() >= crate::graph::MAX_IMPORT_DEPTH {
                        (ImportStepV::Stop, seq![(Severity::Error, "URD204"@,
                            "Import depth limit exceeded (64 files in chain)."@, span_view(span))])
                    } else if visited.contains(n) {
                        (ImportStepV::Link(n), Seq::empty())
                    } else {
                        (ImportStepV::Read(n, entry_dir + n), Seq::empty())
                    },
                }
            },
        },
    }
}

fn find_path(list: &[String], x: &Vec<char>) -> (r: Option<usize>)
    ensures
        match r {
            Some(i) => first_index_of(crate::ast::strings_view(list@), x@) == Some(i as int),
            None => first_index_of(crate::ast::strings_view(list@), x@) is None,
        },
{
    let ghost sv = crate::ast::strings_view(list@);
    proof { lemma_first_index_of(sv, x@); }
    let mut i: usize = 0;
    while i < list.len()
        invariant
            sv == crate::ast::strings_view(list@),
            sv.len() == list@.len(),
            i <= list@.len(),
            forall|j: int| 0 <= j < i ==> sv[j] != x@,
            match first_index_of(sv, x@) {
                Some(k) => 0 <= k < sv.len() && sv[k] == x@ && forall|j: int| 0 <= j < k ==> sv[j] != x@,
                None => forall|j: int| 0 <= j < sv.len() ==> sv[j] != x@,
            },
        decreases list.len() - i,
    {
        let item = chars_of(list[i].as_str());
        assert(sv[i as int] == list@[i as int]@);
        if crate::text::chars_equal(&item, x) {
            return Some(i);
        }
        i += 1;
    }
    None
}

fn record(diagnostics: &mut DiagnosticCollector, code: &str, message: Vec<char>, span: &Span)
    ensures
        appended(final(diagnostics)@, old(diagnostics)@, seq![(Severity::Error, code@, message@, span_view(*span))]),
{
    record_error(diagnostics, code, message, span)
}

/// Decide what to do with one import declaration of `importer_path`.
pub fn plan_import(
    importer_path: &str,
    decl_path: &str,
    decl_span: &Span,
    entry_dir: &str,
    traversal_stack: &[String],
    visited: &[String],
    diagnostics: &mut DiagnosticCollector,
) -> (step: ImportStep)
    ensures
        ({
            let p = import_plan(importer_path@, decl_path@, *decl_span, entry_dir@,
                crate::ast::strings_view(traversal_stack@), crate::ast::strings_view(visited@));
            import_step_view(step) == p.0 && appended(final(diagnostics)@, old(diagnostics)@, p.1)
        }),
{
    let ghost d0 = diagnostics@;
    let raw = chars_of(decl_path);
    let trimmed = crate::text::trim_chars(&raw);
    proof { reveal_strlit("\\"); }
    let written_v = crate::text::replace_chars(&trimmed, "\\", "/");
    let written = string_from_chars(written_v);
    if !validate_import_path(written.as_str(), importer_path, decl_span, diagnostics) {
        proof {
            let w = written_path_of(decl_path@);
            assert(opt_seq(import_path_problem(w, importer_path@, *decl_span)) =~= seq![import_path_problem(w, importer_path@, *decl_span).unwrap()]);
        }
        return ImportStep::Stop;
    }
    proof { lemma_appended_empty(diagnostics@); }
    let ghost d1 = diagnostics@;
    let normalised = match resolve_import_path(written.as_str(), importer_path, decl_span, diagnostics) {
        Some(p) => p,
        None => {
            return ImportStep::Stop;
        },
    };
    let nv = chars_of(normalised.as_str());
    if crate::text::str_equals(normalised.as_str(), importer_path) {
        let mut m = chars_of("File imports itself: '");
        push_str(&mut m, written.as_str());
        push_str(&mut m, "'.");
        record(diagnostics, "URD207", m, decl_span);
        return ImportStep::Stop;
    }
    proof { lemma_first_index_of(crate::ast::strings_view(traversal_stack@), nv@); }
    if let Some(pos) = find_path(traversal_stack, &nv) {
        let mut cycle: Vec<Vec<char>> = Vec::new();
        let mut k: usize = pos;
        let ghost sv = crate::ast::strings_view(traversal_stack@);
        assert(pos < traversal_stack@.len());
        assert(crate::text::views(cycle@) =~= sv.subrange(pos as int, pos as int));
        while k < traversal_stack.len()
            invariant
                pos <= k <= traversal_stack@.len(),
                sv == crate::ast::strings_view(traversal_stack@),
                crate::text::views(cycle@) == sv.subrange(pos as int, k as int),
            decreases traversal_stack.len() - k,
        {
            let ghost before = cycle@;
            cycle.push(chars_of(traversal_stack[k].as_str()));
            proof {
                assert(crate::text::views(cycle@) =~= crate::text::views(before).push(traversal_stack@[k as int]@));
                assert(sv.subrange(pos as int, k + 1) =~= sv.subrange(pos as int, k as int).push(sv[k as int]));
            }
            k += 1;
        }
        let ghost before = cycle@;
        let nvc = slice_chars(&nv, 0, nv.len());
        assert(nvc@ =~= nv@);
        cycle.push(nvc);
        proof {
            assert(crate::text::views(cycle@) =~= sv.skip(pos as int).push(nv@)) by {
                assert(crate::text::views(cycle@) =~= crate::text::views(before).push(nv@));
                assert(sv.subrange(pos as int, traversal_stack@.len() as int) =~= sv.skip(pos as int));
            }
        }
        let joined = join_chars(&cycle, " \u{2192} ");
        let mut m = chars_of("Circular import detected: ");
        push_chars(&mut m, &joined);
        push_str(&mut m, ".");
        record(diagnostics, "URD202", m, decl_span);
        return ImportStep::Stop;
    }
    if traversal_stack.len() >= crate::graph::MAX_IMPORT_DEPTH {
        record(diagnostics, "URD204", chars_of("Import depth limit exceeded (64 files in chain)."), decl_span);
        return ImportStep::Stop;
    }
    proof { lemma_first_index_of(crate::ast::strings_view(visited@), nv@); }
    if find_path(visited, &nv).is_some() {
        proof {
            let i = first_index_of(crate::ast::strings_view(visited@), nv@).unwrap();
            assert(crate::ast::strings_view(visited@).contains(nv@)) by {
                assert(crate::ast::strings_view(visited@)[i] == nv@);
            }
        }
        return ImportStep::Link(normalised);
    }
    proof {
        if crate::ast::strings_view(visited@).contains(nv@) {
            let j = choose|j: int| 0 <= j < crate::ast::strings_view(visited@).len()
                && crate::ast::strings_view(visited@)[j] == nv@;
            assert(crate::ast::strings_view(visited@)[j] == nv@);
        }
    }
    let mut fs = chars_of(entry_dir);
    push_chars(&mut fs, &nv);
    ImportStep::Read { normalised, fs_path: string_from_chars(fs) }
}

pub open spec fn read_failure(written: Seq<char>, normalised: Seq<char>, importer: Seq<char>, span: Span,
    e: FileReadError) -> PlainDiag
{
    let at = span_view(span);
    match e {
        FileReadError::NotFound => (Severity::Error, "URD201"@, "Imported file not found: '"@ + written
            + "' (imported from "@ + importer + ":"@ + decimal(span.start_line as nat) + ")."@, at),
        FileReadError::PermissionDenied => (Severity::Error, "URD213"@,
            "Cannot read file '"@ + normalised + "': permission denied."@, at),
        FileReadError::InvalidUtf8 => (Severity::Error, "URD212"@,
            "File contains invalid UTF-8: '"@ + normalised + "'."@, at),
        FileReadError::IoError(msg) => (Severity::Error, "URD214"@,
            "I/O error reading '"@ + normalised + "': "@ + msg@ + "."@, at),
        FileReadError::TooLarge(size) => (Severity::Error, "URD103"@,
            "File exceeds 1 MB size limit: "@ + normalised + " is "@ + decimal(size as nat) + " bytes."@, at),
    }
}

/// Report a file that could not be read.
pub fn report_read_failure(written: &str, normalised: &str, importer_path: &str, span: &Span,
    error: &FileReadError, diagnostics: &mut DiagnosticCollector)
    ensures
        appended(final(diagnostics)@, old(diagnostics)@,
            seq![read_failure(written@, normalised@, importer_path@, *span, *error)]),
{
    match error {
        FileReadError::NotFound => {
            let mut m = chars_of("Imported file not found: '");
            push_str(&mut m, written);
            push_str(&mut m, "' (imported from ");
            push_str(&mut m, importer_path);
            push_str(&mut m, ":");
            let l = decimal_chars(span.start_line as u64);
            push_chars(&mut m, &l);
            push_str(&mut m, ").");
            record(diagnostics, "URD201", m, span);
        },
        FileReadError::PermissionDenied => {
            let mut m = chars_of("Cannot read file '");
            push_str(&mut m, normalised);
            push_str(&mut m, "': permission denied.");
            record(diagnostics, "URD213", m, span);
        },
        FileReadError::InvalidUtf8 => {
            let mut m = chars_of("File contains invalid UTF-8: '");
            push_str(&mut m, normalised);
            push_str(&mut m, "'.");
            record(diagnostics, "URD212", m, span);
        },
        FileReadError::IoError(msg) => {
            let mut m = chars_of("I/O error reading '");
            push_str(&mut m, normalised);
            push_str(&mut m, "': ");
            push_str(&mut m, msg.as_str());
            push_str(&mut m, ".");
            record(diagnostics, "URD214", m, span);
        },
        FileReadError::TooLarge(size) => {
            let mut m = chars_of("File exceeds 1 MB size limit: ");
            push_str(&mut m, normalised);
            push_str(&mut m, " is ");
            let n = decimal_chars(*size as u64);
            push_chars(&mut m, &n);
            push_str(&mut m, " bytes.");
            record(diagnostics, "URD103", m, span);
        },
    }
}

/// The path a loaded file is known by after a casing check: the canonical
/// file name, when the file system reports one, replaces the written one
/// in the same directory.
pub open spec fn cased_path(normalised: Seq<char>, canonical: Option<Seq<char>>) -> Seq<char> {
    match canonical {
        Some(c) => dir_of(normalised) + c,
        None => normalised,
    }
}

/// Apply the file system's canonical casing of a file name (URD206 when it
/// differs). Returns the path to use and whether that path is loaded already.
pub fn apply_canonical_casing(written: &str, normalised: &str, canonical: Option<&str>, span: &Span,
    visited: &[String], diagnostics: &mut DiagnosticCollector) -> (r: (String, bool))
    ensures
        r.0@ == cased_path(normalised@, match canonical { Some(c) => Some(c@), None => None }),
        r.1 == (canonical is Some && crate::ast::strings_view(visited@).contains(r.0@)),
        match canonical {
            Some(c) => appended(final(diagnostics)@, old(diagnostics)@, seq![(Severity::Warning, "URD206"@,
                "Import path '"@ + written@ + "' differs in filename casing from discovered file '"@
                + cased_path(normalised@, Some(c@)) + "'. Using discovered casing."@, span_view(*span))]),
            None => final(diagnostics)@ == old(diagnostics)@,
        },
{
    match canonical {
        Some(c) => {
            let dir = path_dir(normalised);
            let mut corrected = chars_of(dir);
            push_str(&mut corrected, c);
            let mut m = chars_of("Import path '");
            push_str(&mut m, written);
            push_str(&mut m, "' differs in filename casing from discovered file '");
            push_chars(&mut m, &corrected);
            push_str(&mut m, "'. Using discovered casing.");
            let ghost before = diagnostics@;
            diagnostics.warning("URD206", string_from_chars(m), span.clone());
            proof {
                assert(diagnostics@.take(before.len() as int) == before);
                assert(diagnostics@[before.len() as int] == diagnostics@.last());
            }
            proof { lemma_first_index_of(crate::ast::strings_view(visited@), corrected@); }
            let loaded = find_path(visited, &corrected).is_some();
            proof {
                let sv = crate::ast::strings_view(visited@);
                if loaded {
                    let i = first_index_of(sv, corrected@).unwrap();
                    assert(sv[i] == corrected@);
                } else if sv.contains(corrected@) {
                    let j = choose|j: int| 0 <= j < sv.len() && sv[j] == corrected@;
                    assert(sv[j] == corrected@);
                }
            }
            (string_from_chars(corrected), loaded)
        },
        None => (string_from_chars(chars_of(normalised)), false),
    }
}

/// A loaded source over the size limit (URD103): readers that skip the
/// size check before reading are caught here.
pub fn check_source_size(normalised: &str, source: &str, span: &Span, diagnostics: &mut DiagnosticCollector)
    -> (ok: bool)
    ensures
        ok == (source.len() <= crate::graph::MAX_FILE_SIZE),
        ok ==> final(diagnostics)@ == old(diagnostics)@,
        !ok ==> appended(final(diagnostics)@, old(diagnostics)@, seq![(Severity::Error, "URD103"@,
            "File exceeds 1 MB size limit: "@ + normalised@ + " is "@ + decimal(source.len() as nat) + " bytes."@,
            span_view(*span))]),
{
    let bytes = source.len();
    if bytes > crate::graph::MAX_FILE_SIZE {
        let mut m = chars_of("File exceeds 1 MB size limit: ");
        push_str(&mut m, normalised);
        push_str(&mut m, " is ");
        let n = decimal_chars(bytes as u64);
        push_chars(&mut m, &n);
        push_str(&mut m, " bytes.");
        record(diagnostics, "URD103", m, span);
        return false;
    }
    true
}

/// More files than a compilation unit may hold (URD205).
pub fn check_file_count(count: usize, diagnostics: &mut DiagnosticCollector)
    ensures
        count <= crate::graph::MAX_FILE_COUNT ==> final(diagnostics)@ == old(diagnostics)@,
        count > crate::graph::MAX_FILE_COUNT ==> appended(final(diagnostics)@, old(diagnostics)@,
            seq![(Severity::Error, "URD205"@, "Compilation unit exceeds 256 files ("@ + decimal(count as nat)
                + " discovered)."@, (Seq::<char>::empty(), 0u32, 0u32, 0u32, 0u32))]),
{
    if count > crate::graph::MAX_FILE_COUNT {
        let mut m = chars_of("Compilation unit exceeds 256 files (");
        let n = decimal_chars(count as u64);
        push_chars(&mut m, &n);
        push_str(&mut m, " discovered).");
        let span = Span::synthetic();
        record(diagnostics, "URD205", m, &span);
    }
}

// ── File stems ──

/// The order in which paths are reported: by stem, then by path.
pub open spec fn path_before(p: Seq<char>, q: Seq<char>) -> bool {
    let sp = crate::graph::file_stem_of(p);
    let sq = crate::graph::file_stem_of(q);
    lex_order(sp, sq) < 0 || (sp == sq && lex_order(p, q) < 0)
}

proof fn lemma_path_before_trans(p: Seq<char>, q: Seq<char>, r: Seq<char>)
    requires
        path_before(p, q),
        path_before(q, r),
    ensures
        path_before(p, r),
{
    let sp = crate::graph::file_stem_of(p);
    let sq = crate::graph::file_stem_of(q);
    let sr = crate::graph::file_stem_of(r);
    lemma_lex_order_antisym(sp, sq);
    lemma_lex_order_antisym(sq, sr);
    lemma_lex_order_antisym(sp, sr);
    if lex_order(sp, sq) < 0 && lex_order(sq, sr) < 0 {
        lemma_lex_order_trans(sp, sq, sr);
    } else if sp == sq && sq == sr {
        lemma_lex_order_trans(p, q, r);
    }
}

proof fn lemma_path_before_total(p: Seq<char>, q: Seq<char>)
    requires
        p != q,
    ensures
        path_before(p, q) || path_before(q, p),
        !(path_before(p, q) && path_before(q, p)),
{
    let sp = crate::graph::file_stem_of(p);
    let sq = crate::graph::file_stem_of(q);
    lemma_lex_order_antisym(sp, sq);
    lemma_lex_order_antisym(p, q);
}

proof fn lemma_path_before_irrefl(p: Seq<char>)
    ensures
        !path_before(p, p),
{
    lemma_lex_order_antisym(p, p);
    lemma_lex_order_antisym(crate::graph::file_stem_of(p), crate::graph::file_stem_of(p));
}

/// Position `j` occurs in `order`.
pub open spec fn in_order(order: Seq<usize>, j: int) -> bool {
    exists|k: int| 0 <= k < order.len() && order[k] == j
}

/// Two paths with the same stem, the first before the second.
pub open spec fn collision(p: Seq<char>, q: Seq<char>) -> bool {
    crate::graph::file_stem_of(p) == crate::graph::file_stem_of(q) && lex_order(p, q) < 0
}

/// The order of reported collisions: by the first path, then the second.
pub open spec fn pair_before(a: (Seq<char>, Seq<char>), b: (Seq<char>, Seq<char>)) -> bool {
    path_before(a.0, b.0) || (a.0 == b.0 && lex_order(a.1, b.1) < 0)
}

pub open spec fn msg_stem_collision(p: Seq<char>, q: Seq<char>) -> Seq<char> {
    "File stem collision: '"@ + crate::graph::file_stem_of(p) + "' is produced by both "@ + p + " and "@ + q
        + ". Rename one file to avoid section ID conflicts."@
}

pub open spec fn stem_report(pairs: Seq<(Seq<char>, Seq<char>)>) -> Seq<PlainDiag> {
    pairs.map_values(|pq: (Seq<char>, Seq<char>)| (Severity::Error, "URD203"@, msg_stem_collision(pq.0, pq.1),
        (Seq::<char>::empty(), 0u32, 0u32, 0u32, 0u32)))
}

pub open spec fn distinct_paths(ps: Seq<Seq<char>>) -> bool {
    forall|i: int, j: int| 0 <= i < ps.len() && 0 <= j < ps.len() && i != j ==> ps[i] != ps[j]
}

/// The reported collisions: exactly the colliding pairs of `ps`, each
/// once, in reporting order.
pub open spec fn stem_collisions_are(ps: Seq<Seq<char>>, pairs: Seq<(Seq<char>, Seq<char>)>) -> bool {
    &&& forall|k: int| 0 <= k < pairs.len() ==> collision((#[trigger] pairs[k]).0, pairs[k].1)
        && ps.contains(pairs[k].0) && ps.contains(pairs[k].1)
    &&& forall|a: int, b: int| 0 <= a < ps.len() && 0 <= b < ps.len() && #[trigger] collision(ps[a], ps[b])
        ==> pairs.contains((ps[a], ps[b]))
    &&& forall|k: int| 0 <= k < pairs.len() - 1 ==> pair_before(#[trigger] pairs[k], pairs[k + 1])
}

fn before_exec(stems: &Vec<Vec<char>>, pcs: &Vec<Vec<char>>, i: usize, j: usize, ps: Ghost<Seq<Seq<char>>>) -> (b: bool)
    requires
        i < stems.len(),
        j < stems.len(),
        stems.len() == pcs.len(),
        pcs.len() == ps@.len(),
        forall|k: int| 0 <= k < ps@.len() ==> (#[trigger] stems@[k])@ == crate::graph::file_stem_of(ps@[k]),
        forall|k: int| 0 <= k < ps@.len() ==> (#[trigger] pcs@[k])@ == ps@[k],
    ensures
        b == path_before(ps@[i as int], ps@[j as int]),
{
    let c = crate::text::compare_chars(&stems[i], &stems[j]);
    proof { lemma_lex_order_antisym(stems@[i as int]@, stems@[j as int]@); }
    if c < 0 {
        true
    } else if c == 0 {
        crate::text::compare_chars(&pcs[i], &pcs[j]) < 0
    } else {
        false
    }
}

/// Report every pair of files whose stems collide (URD203), by stem and
/// then by path; the paths are those of a compilation unit, each once.
#[verifier::spinoff_prover]
pub fn check_file_stems(paths: &[String], diagnostics: &mut DiagnosticCollector)
    requires
        distinct_paths(crate::ast::strings_view(paths@)),
    ensures
        exists|pairs: Seq<(Seq<char>, Seq<char>)>| {
            &&& appended(final(diagnostics)@, old(diagnostics)@, stem_report(pairs))
            &&& stem_collisions_are(crate::ast::strings_view(paths@), pairs)
        },
{
    let ghost ps = crate::ast::strings_view(paths@);
    let ghost d0 = diagnostics@;
    let n = paths.len();
    let mut stems: Vec<Vec<char>> = Vec::new();
    let mut pcs: Vec<Vec<char>> = Vec::new();
    let mut i: usize = 0;
    while i < n
        invariant
            n == paths@.len(),
            ps == crate::ast::strings_view(paths@),
            i <= n,
            stems@.len() == i,
            pcs@.len() == i,
            forall|k: int| 0 <= k < i ==> (#[trigger] stems@[k])@ == crate::graph::file_stem_of(ps[k]),
            forall|k: int| 0 <= k < i ==> (#[trigger] pcs@[k])@ == ps[k],
        decreases n - i,
    {
        let st = crate::graph::file_stem(paths[i].as_str());
        stems.push(chars_of(st.as_str()));
        pcs.push(chars_of(paths[i].as_str()));
        i += 1;
    }
    // Sort the positions by stem, then path.
    let mut order: Vec<usize> = Vec::new();
    let mut i: usize = 0;
    while i < n
        invariant
            n == paths@.len(),
            ps == crate::ast::strings_view(paths@),
            distinct_paths(ps),
            stems@.len() == n,
            pcs@.len() == n,
            forall|k: int| 0 <= k < n ==> (#[trigger] stems@[k])@ == crate::graph::file_stem_of(ps[k]),
            forall|k: int| 0 <= k < n ==> (#[trigger] pcs@[k])@ == ps[k],
            i <= n,
            order@.len() == i,
            forall|k: int| 0 <= k < i ==> (#[trigger] order@[k]) < i,
            forall|j: int| 0 <= j < i ==> #[trigger] in_order(order@, j),
            forall|a: int, b: int| 0 <= a < b < i ==> path_before(ps[#[trigger] order@[a] as int], ps[#[trigger] order@[b] as int]),
        decreases n - i,
    {
        let mut m: usize = 0;
        while m < order.len() && before_exec(&stems, &pcs, order[m], i, Ghost(ps))
            invariant
                n == paths@.len(),
                ps == crate::ast::strings_view(paths@),
                i < n,
                stems@.len() == n,
                pcs@.len() == n,
                forall|k: int| 0 <= k < n ==> (#[trigger] stems@[k])@ == crate::graph::file_stem_of(ps[k]),
                forall|k: int| 0 <= k < n ==> (#[trigger] pcs@[k])@ == ps[k],
                order@.len() == i,
                forall|k: int| 0 <= k < i ==> (#[trigger] order@[k]) < i,
                m <= order@.len(),
                forall|k: int| 0 <= k < m ==> path_before(ps[#[trigger] order@[k] as int], ps[i as int]),
            decreases order.len() - m,
        {
            m += 1;
        }
        let ghost old_order = order@;
        proof {
            if m < i {
                let om = old_order[m as int] as int;
                assert(om != i);
                assert(ps[om] != ps[i as int]);
                lemma_path_before_total(ps[om], ps[i as int]);
                assert(path_before(ps[i as int], ps[om]));
                assert forall|k: int| m <= k < i implies path_before(ps[i as int], ps[#[trigger] old_order[k] as int]) by {
                    if k > m {
                        lemma_path_before_trans(ps[i as int], ps[om], ps[old_order[k] as int]);
                    }
                }
            }
        }
        order.insert(m, i);
        proof {
            assert(order@ =~= old_order.take(m as int).push(i).add(old_order.skip(m as int)));
            assert forall|k: int| 0 <= k < i + 1 implies (#[trigger] order@[k]) < i + 1 by {
                if k < m {
                    assert(order@[k] == old_order[k]);
                } else if k > m {
                    assert(order@[k] == old_order[k - 1]);
                }
            }
            assert forall|j: int| 0 <= j < i + 1 implies #[trigger] in_order(order@, j) by {
                if j == i {
                    assert(order@[m as int] == j);
                } else {
                    assert(in_order(old_order, j));
                    let k0 = choose|k: int| 0 <= k < old_order.len() && #[trigger] old_order[k] == j;
                    if k0 < m {
                        assert(order@[k0] == j);
                    } else {
                        assert(order@[k0 + 1] == j);
                    }
                }
            }
            assert forall|a: int, b: int| 0 <= a < b < i + 1
                implies path_before(ps[#[trigger] order@[a] as int], ps[#[trigger] order@[b] as int]) by {
                let oa = if a < m { old_order[a] } else if a == m { i } else { old_order[a - 1] };
                let ob = if b < m { old_order[b] } else if b == m { i } else { old_order[b - 1] };
                assert(order@[a] == oa);
                assert(order@[b] == ob);
                if a < m && b < m {
                } else if a < m && b == m {
                } else if a < m && b > m {
                    lemma_path_before_trans(ps[oa as int], ps[i as int], ps[ob as int]);
                } else if a == m {
                } else {
                    assert(a - 1 < b - 1);
                }
            }
        }
        i += 1;
    }
    // Report the colliding pairs in order.
    let ghost mut pairs: Seq<(Seq<char>, Seq<char>)> = Seq::empty();
    let ghost mut pos: Seq<(int, int)> = Seq::empty();
    proof {
        lemma_appended_empty(d0);
        assert(stem_report(pairs) =~= Seq::<PlainDiag>::empty());
    }
    let mut a: usize = 0;
    while a < n
        invariant
            n == paths@.len(),
            ps == crate::ast::strings_view(paths@),
            distinct_paths(ps),
            stems@.len() == n,
            pcs@.len() == n,
            forall|k: int| 0 <= k < n ==> (#[trigger] stems@[k])@ == crate::graph::file_stem_of(ps[k]),
            forall|k: int| 0 <= k < n ==> (#[trigger] pcs@[k])@ == ps[k],
            order@.len() == n,
            forall|k: int| 0 <= k < n ==> (#[trigger] order@[k]) < n,
            forall|j: int| 0 <= j < n ==> #[trigger] in_order(order@, j),
            forall|x: int, y: int| 0 <= x < y < n ==> path_before(ps[#[trigger] order@[x] as int], ps[#[trigger] order@[y] as int]),
            a <= n,
            appended(diagnostics@, d0, stem_report(pairs)),
            pos.len() == pairs.len(),
            forall|k: int| 0 <= k < pos.len() ==> {
                &&& 0 <= (#[trigger] pos[k]).0 < pos[k].1 < n
                &&& pos[k].0 < a
                &&& pairs[k] == (ps[order@[pos[k].0] as int], ps[order@[pos[k].1] as int])
                &&& crate::graph::file_stem_of(pairs[k].0) == crate::graph::file_stem_of(pairs[k].1)
            },
            forall|k: int| 0 <= k < pos.len() - 1 ==> (#[trigger] pos[k]).0 < pos[k + 1].0
                || (pos[k].0 == pos[k + 1].0 && pos[k].1 < pos[k + 1].1),
            forall|x: int, y: int| 0 <= x < y < n && x < a
                && crate::graph::file_stem_of(ps[#[trigger] order@[x] as int]) == crate::graph::file_stem_of(ps[#[trigger] order@[y] as int])
                ==> pos.contains((x, y)),
        decreases n - a,
    {
        let mut b: usize = a + 1;
        while b < n
            invariant
                n == paths@.len(),
                ps == crate::ast::strings_view(paths@),
                stems@.len() == n,
                pcs@.len() == n,
                forall|k: int| 0 <= k < n ==> (#[trigger] stems@[k])@ == crate::graph::file_stem_of(ps[k]),
                forall|k: int| 0 <= k < n ==> (#[trigger] pcs@[k])@ == ps[k],
                order@.len() == n,
                forall|k: int| 0 <= k < n ==> (#[trigger] order@[k]) < n,
                a < n,
                a + 1 <= b <= n,
                appended(diagnostics@, d0, stem_report(pairs)),
                pos.len() == pairs.len(),
                forall|k: int| 0 <= k < pos.len() ==> {
                    &&& 0 <= (#[trigger] pos[k]).0 < pos[k].1 < n
                    &&& (pos[k].0 < a || (pos[k].0 == a && pos[k].1 < b))
                    &&& pairs[k] == (ps[order@[pos[k].0] as int], ps[order@[pos[k].1] as int])
                    &&& crate::graph::file_stem_of(pairs[k].0) == crate::graph::file_stem_of(pairs[k].1)
                },
                forall|k: int| 0 <= k < pos.len() - 1 ==> (#[trigger] pos[k]).0 < pos[k + 1].0
                    || (pos[k].0 == pos[k + 1].0 && pos[k].1 < pos[k + 1].1),
                forall|x: int, y: int| 0 <= x < y < n && (x < a || (x == a && y < b))
                    && crate::graph::file_stem_of(ps[#[trigger] order@[x] as int]) == crate::graph::file_stem_of(ps[#[trigger] order@[y] as int])
                    ==> pos.contains((x, y)),
            decreases n - b,
        {
            let oa = order[a];
            let ob = order[b];
            if crate::text::chars_equal(&stems[oa], &stems[ob]) {
                let mut m = chars_of("File stem collision: '");
                push_chars(&mut m, &stems[oa]);
                push_str(&mut m, "' is produced by both ");
                push_chars(&mut m, &pcs[oa]);
                push_str(&mut m, " and ");
                push_chars(&mut m, &pcs[ob]);
                push_str(&mut m, ". Rename one file to avoid section ID conflicts.");
                let ghost before = diagnostics@;
                let ghost old_pairs = pairs;
                let ghost old_pos = pos;
                let span = Span::synthetic();
                record(diagnostics, "URD203", m, &span);
                proof {
                    let pq = (ps[oa as int], ps[ob as int]);
                    pairs = pairs.push(pq);
                    pos = pos.push((a as int, b as int));
                    lemma_appended_trans(d0, before, diagnostics@, stem_report(old_pairs),
                        seq![(Severity::Error, "URD203"@, msg_stem_collision(pq.0, pq.1),
                            (Seq::<char>::empty(), 0u32, 0u32, 0u32, 0u32))]);
                    assert(stem_report(old_pairs) + seq![(Severity::Error, "URD203"@, msg_stem_collision(pq.0, pq.1),
                        (Seq::<char>::empty(), 0u32, 0u32, 0u32, 0u32))] =~= stem_report(pairs));
                    assert forall|x: int, y: int| 0 <= x < y < n && (x < a || (x == a && y < b + 1))
                        && crate::graph::file_stem_of(ps[#[trigger] order@[x] as int]) == crate::graph::file_stem_of(ps[#[trigger] order@[y] as int])
                        implies pos.contains((x, y)) by {
                        if x == a && y == b {
                            assert(pos[pos.len() - 1] == (x, y));
                        } else {
                            let k = choose|k: int| 0 <= k < old_pos.len() && old_pos[k] == (x, y);
                            assert(pos[k] == (x, y));
                        }
                    }
                    assert forall|k: int| 0 <= k < pos.len() implies {
                        &&& 0 <= (#[trigger] pos[k]).0 < pos[k].1 < n
                        &&& (pos[k].0 < a || (pos[k].0 == a && pos[k].1 < b + 1))
                        &&& pairs[k] == (ps[order@[pos[k].0] as int], ps[order@[pos[k].1] as int])
                        &&& crate::graph::file_stem_of(pairs[k].0) == crate::graph::file_stem_of(pairs[k].1)
                    } by {
                        if k < old_pos.len() {
                            assert(pos[k] == old_pos[k]);
                            assert(pairs[k] == old_pairs[k]);
                        } else {
                            assert(stems@[oa as int]@ == stems@[ob as int]@);
                        }
                    }
                }
            } else {
                proof {
                    assert forall|x: int, y: int| 0 <= x < y < n && (x < a || (x == a && y < b + 1))
                        && crate::graph::file_stem_of(ps[#[trigger] order@[x] as int]) == crate::graph::file_stem_of(ps[#[trigger] order@[y] as int])
                        implies pos.contains((x, y)) by {
                        if x == a && y == b {
                            assert(stems@[oa as int]@ != stems@[ob as int]@);
                        }
                    }
                }
            }
            b += 1;
        }
        a += 1;
    }
    proof {
        assert forall|k: int| 0 <= k < pairs.len() implies collision((#[trigger] pairs[k]).0, pairs[k].1)
            && ps.contains(pairs[k].0) && ps.contains(pairs[k].1) by {
            let (x, y) = pos[k];
            let ox = order@[x] as int;
            let oy = order@[y] as int;
            assert(path_before(ps[ox], ps[oy]));
            lemma_lex_order_antisym(crate::graph::file_stem_of(ps[ox]), crate::graph::file_stem_of(ps[oy]));
            assert(ps[ox] == pairs[k].0);
            assert(ps[oy] == pairs[k].1);
            assert(ps.contains(pairs[k].0));
            assert(ps.contains(pairs[k].1));
        }
        assert forall|i: int, j: int| 0 <= i < ps.len() && 0 <= j < ps.len() && #[trigger] collision(ps[i], ps[j])
            implies pairs.contains((ps[i], ps[j])) by {
            assert(in_order(order@, i));
            assert(in_order(order@, j));
            let x = choose|k: int| 0 <= k < order@.len() && #[trigger] order@[k] == i;
            let y = choose|k: int| 0 <= k < order@.len() && #[trigger] order@[k] == j;
            lemma_lex_order_antisym(ps[i], ps[j]);
            assert(i != j);
            assert(path_before(ps[i], ps[j]));
            if y < x {
                assert(path_before(ps[order@[y] as int], ps[order@[x] as int]));
                lemma_path_before_total(ps[i], ps[j]);
            }
            assert(x != y);
            assert(pos.contains((x, y)));
            let k = choose|k: int| 0 <= k < pos.len() && pos[k] == (x, y);
            assert(pairs[k] == (ps[i], ps[j]));
        }
        assert forall|k: int| 0 <= k < pairs.len() - 1 implies pair_before(#[trigger] pairs[k], pairs[k + 1]) by {
            let (x1, y1) = pos[k];
            let (x2, y2) = pos[k + 1];
            if x1 < x2 {
                assert(path_before(ps[order@[x1] as int], ps[order@[x2] as int]));
            } else {
                let sa = crate::graph::file_stem_of(pairs[k].0);
                assert(path_before(ps[order@[y1] as int], ps[order@[y2] as int]));
                lemma_lex_order_antisym(crate::graph::file_stem_of(pairs[k].1), crate::graph::file_stem_of(pairs[k + 1].1));
            }
        }
        assert(stem_collisions_are(ps, pairs));
    }
}

// ── Discovery ──

/// An import declaration by its path and span.
pub open spec fn decl_view(d: crate::ast::ImportDecl) -> (Seq<char>, crate::span::SpanV) {
    (d.path@, span_view(d.span))
}

/// The import declarations among frontmatter entries, in order.
pub open spec fn import_decls_in(es: Seq<crate::ast::FrontmatterEntry>) -> Seq<(Seq<char>, crate::span::SpanV)>
    decreases es.len(),
{
    if es.len() == 0 {
        Seq::empty()
    } else {
        import_decls_in(es.drop_last()) + match es.last().value {
            crate::ast::FrontmatterValue::ImportDecl(d) => seq![decl_view(d)],
            _ => Seq::empty(),
        }
    }
}

/// The import declarations of a file (none without frontmatter).
pub open spec fn import_decls_of(ast: crate::ast::FileAst) -> Seq<(Seq<char>, crate::span::SpanV)> {
    match ast.frontmatter {
        Some(fm) => import_decls_in(fm.entries@),
        None => Seq::empty(),
    }
}

/// Extract the `import:` declarations of a file's frontmatter, in order.
pub fn extract_import_decls(ast: &crate::ast::FileAst) -> (v: Vec<crate::ast::ImportDecl>)
    ensures
        v@.map_values(|d: crate::ast::ImportDecl| decl_view(d)) == import_decls_of(*ast),
{
    let mut v: Vec<crate::ast::ImportDecl> = Vec::new();
    match &ast.frontmatter {
        Some(fm) => {
            let mut i: usize = 0;
            while i < fm.entries.len()
                invariant
                    i <= fm.entries.len(),
                    v@.map_values(|d: crate::ast::ImportDecl| decl_view(d)) == import_decls_in(fm.entries@.take(i as int)),
                decreases fm.entries.len() - i,
            {
                proof {
                    assert(fm.entries@.take(i + 1).drop_last() =~= fm.entries@.take(i as int));
                    assert(fm.entries@.take(i + 1).last() == fm.entries@[i as int]);
                }
                let ghost before = v@;
                match &fm.entries[i].value {
                    crate::ast::FrontmatterValue::ImportDecl(d) => {
                        v.push(crate::ast::ImportDecl { path: d.path.clone(), span: d.span.clone() });
                        assert(v@.map_values(|d: crate::ast::ImportDecl| decl_view(d))
                            =~= before.map_values(|d: crate::ast::ImportDecl| decl_view(d)).push(decl_view(*d)));
                    },
                    _ => {
                        assert(import_decls_in(fm.entries@.take(i + 1)) =~= import_decls_in(fm.entries@.take(i as int)));
                    },
                }
                i += 1;
            }
            assert(fm.entries@.take(fm.entries.len() as int) =~= fm.entries@);
        },
        None => {
            assert(v@.map_values(|d: crate::ast::ImportDecl| decl_view(d)) =~= Seq::<(Seq<char>, crate::span::SpanV)>::empty());
        },
    }
    v
}

/// Whether `x` is among `v`, by text.
fn contains_path(v: &Vec<String>, x: &str) -> (b: bool)
    ensures
        b == crate::ast::strings_view(v@).contains(x@),
{
    crate::link::in_scope(v, x)
}

/// Add a dependency edge from `importer` to `target`, once per importer
/// (`edges_from_this_file` holds the targets it has already), and record
/// the target among the importer's imports.
fn add_edge(importer: &str, target: &str, edges_from_this_file: &mut Vec<String>, graph: &mut crate::graph::DependencyGraph)
    requires
        old(graph).wf(),
    ensures
        final(graph).wf(),
        crate::graph::node_paths(final(graph).nodes@) == crate::graph::node_paths(old(graph).nodes@),
        final(graph).entry_path == old(graph).entry_path,
        crate::ast::strings_view(final(edges_from_this_file)@) == if crate::ast::strings_view(old(edges_from_this_file)@).contains(target@) {
            crate::ast::strings_view(old(edges_from_this_file)@)
        } else {
            crate::ast::strings_view(old(edges_from_this_file)@).push(target@)
        },
        !crate::ast::strings_view(old(edges_from_this_file)@).contains(target@) ==> {
            &&& final(graph).edges@.len() == old(graph).edges@.len() + 1
            &&& final(graph).edges@.drop_last() == old(graph).edges@
            &&& final(graph).edges@.last().0@ == importer@
            &&& final(graph).edges@.last().1@ == target@
        },
        crate::ast::strings_view(old(edges_from_this_file)@).contains(target@) ==> final(graph).edges@ == old(graph).edges@,
{
    if contains_path(edges_from_this_file, target) {
        return;
    }
    let ghost before = edges_from_this_file@;
    edges_from_this_file.push(target.to_string());
    assert(crate::ast::strings_view(edges_from_this_file@) =~= crate::ast::strings_view(before).push(target@));
    let ghost eb = graph.edges@;
    graph.edges.push((importer.to_string(), target.to_string()));
    assert(graph.edges@.drop_last() =~= eb);
    let ghost paths = crate::graph::node_paths(graph.nodes@);
    let ghost e1 = graph.edges@;
    let ghost f1 = edges_from_this_file@;
    let mut k: usize = 0;
    while k < graph.nodes.len()
        invariant
            k <= graph.nodes.len(),
            paths == crate::graph::node_paths(graph.nodes@),
            paths == crate::graph::node_paths(old(graph).nodes@),
            graph.wf(),
            graph.entry_path == old(graph).entry_path,
            graph.edges@ == e1,
            edges_from_this_file@ == f1,
            crate::ast::strings_view(f1) == crate::ast::strings_view(old(edges_from_this_file)@).push(target@),
            !crate::ast::strings_view(old(edges_from_this_file)@).contains(target@),
            e1.len() == old(graph).edges@.len() + 1,
            e1.drop_last() == old(graph).edges@,
            e1.last().0@ == importer@,
            e1.last().1@ == target@,
            forall|j: int| 0 <= j < k ==> (#[trigger] graph.nodes@[j]).path@ != importer@,
        decreases graph.nodes.len() - k,
    {
        if crate::text::str_equals(graph.nodes[k].path.as_str(), importer) {
            let mut node = graph.nodes.remove(k);
            if !contains_path(&node.imports, target) {
                node.imports.push(target.to_string());
            }
            graph.nodes.insert(k, node);
            assert(crate::graph::node_paths(graph.nodes@) =~= paths);
            return;
        }
        k += 1;
    }
}

/// Resolve all imports starting from the entry file: discover the imported
/// files recursively through `reader`, parse each, build the dependency
/// graph, check the file count and the file stems, and order the files for
/// compilation.
pub fn resolve_imports_with_reader<R: FileReader>(
    entry_ast: crate::ast::FileAst,
    entry_dir: &str,
    diagnostics: &mut DiagnosticCollector,
    reader: &R,
) -> (cu: crate::graph::CompilationUnit)
    ensures
        cu.graph.wf(),
        cu.graph.nodes@.len() >= 1,
        cu.graph.nodes@[0].path@ == entry_ast.path@,
        cu.graph.entry_path == Some(entry_ast.path),
        crate::graph::is_compilation_order(cu.graph.nodes@, Some(entry_ast.path@),
            crate::ast::strings_view(cu.ordered_asts@)),
        grew(final(diagnostics)@, old(diagnostics)@),
        import_decls_of(entry_ast).len() == 0 ==> {
            &&& final(diagnostics)@ == old(diagnostics)@
            &&& cu.graph.nodes@.len() == 1
            &&& cu.graph.edges@.len() == 0
            &&& crate::ast::strings_view(cu.ordered_asts@) == seq![entry_ast.path@]
        },
{
    let mut graph = crate::graph::DependencyGraph::new();
    let entry_path = entry_ast.path.clone();
    let entry_imports = extract_import_decls(&entry_ast);
    graph.nodes.push(crate::graph::FileNode { path: entry_path.clone(), ast: entry_ast, imports: Vec::new() });
    graph.entry_path = Some(entry_path.clone());
    let mut visited: Vec<String> = Vec::new();
    visited.push(entry_path.clone());
    let mut traversal_stack: Vec<String> = Vec::new();
    traversal_stack.push(entry_path.clone());
    proof {
        assert(crate::graph::node_paths(graph.nodes@) =~= seq![entry_path@]);
        assert(crate::ast::strings_view(visited@) =~= seq![entry_path@]);
    }
    let ghost n1 = graph.nodes@;
    let ghost g1 = graph;
    let ghost d0 = diagnostics@;
    process_imports(entry_path.as_str(), &entry_imports, entry_dir, &mut graph, &mut visited,
        &mut traversal_stack, diagnostics, reader);
    proof {
        let np = crate::graph::node_paths(graph.nodes@);
        assert(np.take(1)[0] == np[0]);
        assert(crate::graph::node_paths(n1)[0] == entry_path@);
        assert(entry_imports@.len() == import_decls_of(entry_ast).len());
    }
    let ghost d1 = diagnostics@;
    check_file_count(graph.nodes.len(), diagnostics);
    let ghost d2 = diagnostics@;
    proof {
        if graph.nodes.len() > crate::graph::MAX_FILE_COUNT {
            lemma_appended_grew(d2, d1);
        } else {
            assert(d2.take(d1.len() as int) =~= d1);
        }
        lemma_grew_trans(d0, d1, d2);
    }
    let mut paths: Vec<String> = Vec::new();
    let mut i: usize = 0;
    while i < graph.nodes.len()
        invariant
            i <= graph.nodes.len(),
            crate::ast::strings_view(paths@) == crate::graph::node_paths(graph.nodes@).take(i as int),
        decreases graph.nodes.len() - i,
    {
        let ghost before = paths@;
        paths.push(graph.nodes[i].path.clone());
        proof {
            assert(crate::ast::strings_view(paths@) =~= crate::ast::strings_view(before).push(graph.nodes@[i as int].path@));
            assert(crate::graph::node_paths(graph.nodes@).take(i + 1)
                =~= crate::graph::node_paths(graph.nodes@).take(i as int).push(graph.nodes@[i as int].path@));
        }
        i += 1;
    }
    proof {
        let np = crate::graph::node_paths(graph.nodes@);
        assert(np.take(graph.nodes@.len() as int) =~= np);
        assert forall|a: int, b: int| 0 <= a < np.len() && 0 <= b < np.len() && a != b implies np[a] != np[b] by {
            if a < b { } else { }
        }
    }
    check_file_stems(&paths, diagnostics);
    proof {
        lemma_appended_grew(diagnostics@, d2);
        lemma_grew_trans(d0, d2, diagnostics@);
        if import_decls_of(entry_ast).len() == 0 {
            assert(graph == g1);
            let ps = crate::ast::strings_view(paths@);
            assert(ps =~= seq![entry_path@]);
            let pairs = choose|pairs: Seq<(Seq<char>, Seq<char>)>| {
                &&& appended(diagnostics@, d2, stem_report(pairs))
                &&& stem_collisions_are(ps, pairs)
            };
            if pairs.len() > 0 {
                assert(collision(pairs[0].0, pairs[0].1));
                assert(ps.contains(pairs[0].0) && ps.contains(pairs[0].1));
                assert(pairs[0].0 == entry_path@ && pairs[0].1 == entry_path@);
                lemma_lex_order_antisym(entry_path@, entry_path@);
            }
            assert(stem_report(pairs).len() == 0);
            assert(diagnostics@ =~= d2);
        }
    }
    let ordered_asts = crate::graph::topological_order(&graph);
    crate::graph::CompilationUnit { graph, ordered_asts }
}

/// `new` is `old` with items appended.
pub open spec fn grew<T>(new: Seq<T>, old: Seq<T>) -> bool {
    &&& old.len() <= new.len()
    &&& new.take(old.len() as int) == old
}

pub proof fn lemma_grew_trans<T>(a: Seq<T>, b: Seq<T>, c: Seq<T>)
    requires
        grew(b, a),
        grew(c, b),
    ensures
        grew(c, a),
{
    assert(c.take(a.len() as int) =~= c.take(b.len() as int).take(a.len() as int));
}

proof fn lemma_appended_grew(new: Seq<crate::diagnostics::Diagnostic>, old: Seq<crate::diagnostics::Diagnostic>)
    requires
        exists|added: Seq<PlainDiag>| appended(new, old, added),
    ensures
        grew(new, old),
{
}

/// The diagnostics `added` come first among those appended to `old`.
pub open spec fn reported_first(new: Seq<crate::diagnostics::Diagnostic>, old: Seq<crate::diagnostics::Diagnostic>,
    added: Seq<PlainDiag>) -> bool {
    &&& new.len() >= old.len() + added.len()
    &&& appended(new.take((old.len() + added.len()) as int), old, added)
}

proof fn lemma_reported_first(mid: Seq<crate::diagnostics::Diagnostic>, new: Seq<crate::diagnostics::Diagnostic>,
    old: Seq<crate::diagnostics::Diagnostic>, added: Seq<PlainDiag>)
    requires
        appended(mid, old, added),
        grew(new, mid),
    ensures
        reported_first(new, old, added),
        grew(new, old),
{
    assert(new.take((old.len() + added.len()) as int) == mid);
    assert(new.take(old.len() as int) =~= mid.take(old.len() as int));
}

/// The edge step of an import of `target` by `importer`: an edge is added,
/// and the target noted, unless this file has an edge to it already.
pub open spec fn edge_step(old_from: Seq<Seq<char>>, new_from: Seq<Seq<char>>, old_edges: Seq<(String, String)>,
    new_edges: Seq<(String, String)>, importer: Seq<char>, target: Seq<char>) -> bool {
    if old_from.contains(target) {
        new_from == old_from && new_edges == old_edges
    } else {
        &&& new_from == old_from.push(target)
        &&& new_edges.len() == old_edges.len() + 1
        &&& new_edges.drop_last() == old_edges
        &&& new_edges.last().0@ == importer
        &&& new_edges.last().1@ == target
    }
}

/// What becomes of a file that was read.
pub enum LoadOutcome {
    /// The file (under its discovered casing) is loaded already.
    Linked(String),
    /// The file was rejected, its diagnostic recorded.
    Rejected,
    /// The file parsed: its path and tree.
    Loaded(String, crate::ast::FileAst),
}

pub open spec fn opt_text_view(o: Option<&str>) -> Option<Seq<char>> {
    match o {
        Some(c) => Some(c@),
        None => None,
    }
}

/// The URD206 report of a casing that differs, if the file system gave one.
pub open spec fn casing_reports(written: Seq<char>, normalised: Seq<char>, canonical: Option<Seq<char>>,
    span: Span) -> Seq<PlainDiag> {
    match canonical {
        Some(c) => seq![(Severity::Warning, "URD206"@,
            "Import path '"@ + written + "' differs in filename casing from discovered file '"@
            + cased_path(normalised, Some(c)) + "'. Using discovered casing."@, span_view(span))],
        None => Seq::empty(),
    }
}

/// Take the text read for an import: apply the discovered casing (URD206),
/// link to the file when it is loaded already, reject a text over the size
/// limit (URD103), and otherwise parse it under the file's path.
pub fn load_file(written: &str, normalised: &str, canonical: Option<&str>, source: &str, span: &Span,
    visited: &[String], diagnostics: &mut DiagnosticCollector) -> (r: LoadOutcome)
    ensures
        ({
            let path = cased_path(normalised@, opt_text_view(canonical));
            let cr = casing_reports(written@, normalised@, opt_text_view(canonical), *span);
            let mid = (old(diagnostics)@.len() + cr.len()) as int;
            &&& final(diagnostics)@.len() >= mid
            &&& appended(final(diagnostics)@.take(mid), old(diagnostics)@, cr)
            &&& grew(final(diagnostics)@, old(diagnostics)@)
            &&& (r is Rejected ==> final(diagnostics)@.len() > mid)
            &&& if canonical is Some && crate::ast::strings_view(visited@).contains(path) {
                &&& r matches LoadOutcome::Linked(p) && p@ == path
                &&& final(diagnostics)@.len() == mid
            } else if source.len() > crate::graph::MAX_FILE_SIZE {
                &&& r is Rejected
                &&& appended(final(diagnostics)@, final(diagnostics)@.take(mid), seq![(Severity::Error, "URD103"@,
                    "File exceeds 1 MB size limit: "@ + path + " is "@ + decimal(source.len() as nat) + " bytes."@,
                    span_view(*span))])
            } else {
                exists|a: Option<crate::ast::FileAst>| {
                    &&& crate::content::parse_outcome(path, source, final(diagnostics)@.take(mid), final(diagnostics)@, a)
                    &&& match a {
                        None => r is Rejected,
                        Some(ast) => r matches LoadOutcome::Loaded(p, x) && p@ == path && x == ast,
                    }
                }
            }
        }),
{
    let ghost d0 = diagnostics@;
    let (path, loaded) = apply_canonical_casing(written, normalised, canonical, span, visited, diagnostics);
    let ghost d1 = diagnostics@;
    let ghost cr = casing_reports(written@, normalised@, opt_text_view(canonical), *span);
    proof {
        if canonical is None {
            assert(cr.len() == 0);
            assert(d1.take(d0.len() as int) =~= d0);
            lemma_appended_empty(d0);
        }
        assert(d1.len() == d0.len() + cr.len());
    }
    proof { assert(d1.take(d0.len() as int) == d0); }
    if loaded {
        proof { assert(d1.take(d1.len() as int) =~= d1); }
        return LoadOutcome::Linked(path);
    }
    if !check_source_size(path.as_str(), source, span, diagnostics) {
        proof {
            assert(diagnostics@.take(d1.len() as int) == d1);
            assert(diagnostics@.take(d0.len() as int) =~= d1.take(d0.len() as int));
        }
        return LoadOutcome::Rejected;
    }
    let parsed = crate::content::parse(path.as_str(), source, diagnostics);
    proof {
        assert(diagnostics@.take(d1.len() as int) == d1) by {
            assert(crate::import::grew(diagnostics@, d1));
        }
        assert(diagnostics@.take(d0.len() as int) =~= d1.take(d0.len() as int));
    }
    match parsed {
        Some(ast) => LoadOutcome::Loaded(path, ast),
        None => LoadOutcome::Rejected,
    }
}

/// Process all import declarations of one file, in order.
fn process_imports<R: FileReader>(
    importer_path: &str,
    import_decls: &Vec<crate::ast::ImportDecl>,
    entry_dir: &str,
    graph: &mut crate::graph::DependencyGraph,
    visited: &mut Vec<String>,
    traversal_stack: &mut Vec<String>,
    diagnostics: &mut DiagnosticCollector,
    reader: &R,
)
    requires
        old(graph).wf(),
        crate::ast::strings_view(old(visited)@) == crate::graph::node_paths(old(graph).nodes@),
        old(traversal_stack)@.len() <= crate::graph::MAX_IMPORT_DEPTH,
    ensures
        final(graph).wf(),
        crate::ast::strings_view(final(visited)@) == crate::graph::node_paths(final(graph).nodes@),
        final(traversal_stack)@ == old(traversal_stack)@,
        crate::graph::node_paths(final(graph).nodes@).take(old(graph).nodes@.len() as int) == crate::graph::node_paths(old(graph).nodes@),
        final(graph).nodes@.len() >= old(graph).nodes@.len(),
        final(graph).entry_path == old(graph).entry_path,
        grew(final(diagnostics)@, old(diagnostics)@),
        grew(final(graph).edges@, old(graph).edges@),
        import_decls@.len() == 0 ==> *final(graph) == *old(graph) && final(diagnostics)@ == old(diagnostics)@
            && final(visited)@ == old(visited)@,
        import_decls@.len() > 0 ==> ({
            let p = import_plan(importer_path@, import_decls@[0].path@, import_decls@[0].span, entry_dir@,
                crate::ast::strings_view(old(traversal_stack)@), crate::ast::strings_view(old(visited)@));
            &&& reported_first(final(diagnostics)@, old(diagnostics)@, p.1)
            &&& (p.0 matches ImportStepV::Link(t) ==> exists|e: int| 0 <= e < final(graph).edges@.len()
                && (#[trigger] final(graph).edges@[e]).0@ == importer_path@ && final(graph).edges@[e].1@ == t)
            &&& (p.0 is Read ==> {
                ||| final(diagnostics)@.len() > old(diagnostics)@.len() + p.1.len()
                ||| final(graph).nodes@.len() > old(graph).nodes@.len()
                ||| exists|e: int| 0 <= e < final(graph).edges@.len()
                    && (#[trigger] final(graph).edges@[e]).0@ == importer_path@
                    && crate::ast::strings_view(old(visited)@).contains(final(graph).edges@[e].1@)
            })
        }),
    decreases crate::graph::MAX_IMPORT_DEPTH - old(traversal_stack)@.len(), 1int,
{
    let mut edges_from_this_file: Vec<String> = Vec::new();
    proof {
        assert(diagnostics@.take(diagnostics@.len() as int) =~= diagnostics@);
        assert(graph.edges@.take(graph.edges@.len() as int) =~= graph.edges@);
    }
    let mut i: usize = 0;
    while i < import_decls.len()
        invariant
            i <= import_decls.len(),
            graph.wf(),
            crate::ast::strings_view(visited@) == crate::graph::node_paths(graph.nodes@),
            traversal_stack@ == old(traversal_stack)@,
            traversal_stack@.len() <= crate::graph::MAX_IMPORT_DEPTH,
            crate::graph::node_paths(graph.nodes@).take(old(graph).nodes@.len() as int) == crate::graph::node_paths(old(graph).nodes@),
            graph.nodes@.len() >= old(graph).nodes@.len(),
            graph.entry_path == old(graph).entry_path,
            grew(diagnostics@, old(diagnostics)@),
            grew(graph.edges@, old(graph).edges@),
            i == 0 ==> diagnostics@ == old(diagnostics)@ && edges_from_this_file@.len() == 0
                && visited@ == old(visited)@ && graph.edges@ == old(graph).edges@ && *graph == *old(graph),
            i > 0 ==> ({
                let p = import_plan(importer_path@, import_decls@[0].path@, import_decls@[0].span, entry_dir@,
                    crate::ast::strings_view(old(traversal_stack)@), crate::ast::strings_view(old(visited)@));
                &&& reported_first(diagnostics@, old(diagnostics)@, p.1)
                &&& (p.0 matches ImportStepV::Link(t) ==> exists|e: int| 0 <= e < graph.edges@.len()
                    && (#[trigger] graph.edges@[e]).0@ == importer_path@ && graph.edges@[e].1@ == t)
                &&& (p.0 is Read ==> {
                    ||| diagnostics@.len() > old(diagnostics)@.len() + p.1.len()
                    ||| graph.nodes@.len() > old(graph).nodes@.len()
                    ||| exists|e: int| 0 <= e < graph.edges@.len()
                        && (#[trigger] graph.edges@[e]).0@ == importer_path@
                        && crate::ast::strings_view(old(visited)@).contains(graph.edges@[e].1@)
                })
            }),
        decreases import_decls.len() - i,
    {
        let ghost n0 = crate::graph::node_paths(graph.nodes@);
        let ghost l0 = graph.nodes@.len();
        let ghost d0 = diagnostics@;
        let ghost g0 = graph.edges@;
        let ghost f0 = edges_from_this_file@;
        process_single_import(importer_path, &import_decls[i], entry_dir, graph, visited, traversal_stack,
            &mut edges_from_this_file, diagnostics, reader);
        proof {
            assert(crate::graph::node_paths(graph.nodes@).take(old(graph).nodes@.len() as int)
                =~= crate::graph::node_paths(graph.nodes@).take(l0 as int).take(old(graph).nodes@.len() as int));
            lemma_grew_trans(old(diagnostics)@, d0, diagnostics@);
            lemma_grew_trans(old(graph).edges@, g0, graph.edges@);
            let p = import_plan(importer_path@, import_decls@[0].path@, import_decls@[0].span, entry_dir@,
                crate::ast::strings_view(old(traversal_stack)@), crate::ast::strings_view(old(visited)@));
            if i > 0 {
                assert(diagnostics@.take((old(diagnostics)@.len() + p.1.len()) as int)
                    =~= diagnostics@.take(d0.len() as int).take((old(diagnostics)@.len() + p.1.len()) as int));
                if let ImportStepV::Link(t) = p.0 {
                    let e = choose|e: int| 0 <= e < g0.len() && (#[trigger] g0[e]).0@ == importer_path@ && g0[e].1@ == t;
                    assert(graph.edges@[e] == graph.edges@.take(g0.len() as int)[e]);
                }
                if p.0 is Read {
                    if exists|e: int| 0 <= e < g0.len() && (#[trigger] g0[e]).0@ == importer_path@
                        && crate::ast::strings_view(old(visited)@).contains(g0[e].1@) {
                        let e = choose|e: int| 0 <= e < g0.len() && (#[trigger] g0[e]).0@ == importer_path@
                            && crate::ast::strings_view(old(visited)@).contains(g0[e].1@);
                        assert(graph.edges@[e] == graph.edges@.take(g0.len() as int)[e]);
                    }
                }
            } else {
                assert(crate::ast::strings_view(f0) =~= Seq::<Seq<char>>::empty());
                if let ImportStepV::Link(t) = p.0 {
                    assert(graph.edges@[g0.len() as int] == graph.edges@.last());
                }
                if p.0 is Read {
                    if diagnostics@.len() <= old(diagnostics)@.len() + p.1.len() && graph.nodes@.len() <= old(graph).nodes@.len() {
                        let t = choose|t: Seq<char>| {
                            &&& #[trigger] crate::ast::strings_view(old(visited)@).contains(t)
                            &&& crate::graph::node_paths(graph.nodes@) == crate::graph::node_paths(old(graph).nodes@)
                            &&& edge_step(crate::ast::strings_view(f0), crate::ast::strings_view(edges_from_this_file@),
                                g0, graph.edges@, importer_path@, t)
                        };
                        assert(graph.edges@[g0.len() as int] == graph.edges@.last());
                    }
                }
            }
        }
        i += 1;
    }
}

/// The files have one more path after the first `old_len`: the path the
/// import `n` was found under (its own, or with the casing the reader
/// discovered), which was not loaded before.
pub open spec fn added_file(paths: Seq<Seq<char>>, old_len: int, old_visited: Seq<Seq<char>>, n: Seq<char>) -> bool {
    exists|c: Option<Seq<char>>| {
        &&& paths.len() > old_len
        &&& paths[old_len] == #[trigger] cased_path(n, c)
        &&& !old_visited.contains(cased_path(n, c))
    }
}

/// Process one import declaration: decide what it asks for, then link a
/// loaded file, or read, parse and add a new one and discover its own
/// imports.
fn process_single_import<R: FileReader>(
    importer_path: &str,
    decl: &crate::ast::ImportDecl,
    entry_dir: &str,
    graph: &mut crate::graph::DependencyGraph,
    visited: &mut Vec<String>,
    traversal_stack: &mut Vec<String>,
    edges_from_this_file: &mut Vec<String>,
    diagnostics: &mut DiagnosticCollector,
    reader: &R,
)
    requires
        old(graph).wf(),
        crate::ast::strings_view(old(visited)@) == crate::graph::node_paths(old(graph).nodes@),
        old(traversal_stack)@.len() <= crate::graph::MAX_IMPORT_DEPTH,
    ensures
        final(graph).wf(),
        crate::ast::strings_view(final(visited)@) == crate::graph::node_paths(final(graph).nodes@),
        final(traversal_stack)@ == old(traversal_stack)@,
        crate::graph::node_paths(final(graph).nodes@).take(old(graph).nodes@.len() as int) == crate::graph::node_paths(old(graph).nodes@),
        final(graph).nodes@.len() >= old(graph).nodes@.len(),
        final(graph).entry_path == old(graph).entry_path,
        grew(final(diagnostics)@, old(diagnostics)@),
        grew(final(graph).edges@, old(graph).edges@),
        ({
            let p = import_plan(importer_path@, decl.path@, decl.span, entry_dir@,
                crate::ast::strings_view(old(traversal_stack)@), crate::ast::strings_view(old(visited)@));
            &&& reported_first(final(diagnostics)@, old(diagnostics)@, p.1)
            &&& match p.0 {
                ImportStepV::Stop => {
                    &&& final(diagnostics)@.len() == old(diagnostics)@.len() + p.1.len()
                    &&& *final(graph) == *old(graph)
                    &&& final(visited)@ == old(visited)@
                    &&& final(edges_from_this_file)@ == old(edges_from_this_file)@
                },
                ImportStepV::Link(t) => {
                    &&& final(diagnostics)@.len() == old(diagnostics)@.len() + p.1.len()
                    &&& crate::graph::node_paths(final(graph).nodes@) == crate::graph::node_paths(old(graph).nodes@)
                    &&& final(visited)@ == old(visited)@
                    &&& edge_step(crate::ast::strings_view(old(edges_from_this_file)@),
                        crate::ast::strings_view(final(edges_from_this_file)@), old(graph).edges@, final(graph).edges@,
                        importer_path@, t)
                },
                ImportStepV::Read(n, _) => {
                    ||| final(diagnostics)@.len() > old(diagnostics)@.len() + p.1.len()
                    ||| added_file(crate::graph::node_paths(final(graph).nodes@), old(graph).nodes@.len() as int,
                        crate::ast::strings_view(old(visited)@), n)
                    ||| exists|t: Seq<char>| {
                        &&& #[trigger] crate::ast::strings_view(old(visited)@).contains(t)
                        &&& crate::graph::node_paths(final(graph).nodes@) == crate::graph::node_paths(old(graph).nodes@)
                        &&& edge_step(crate::ast::strings_view(old(edges_from_this_file)@),
                            crate::ast::strings_view(final(edges_from_this_file)@), old(graph).edges@, final(graph).edges@,
                            importer_path@, t)
                    }
                },
            }
        }),
    decreases crate::graph::MAX_IMPORT_DEPTH - old(traversal_stack)@.len(), 0int,
{
    let ghost paths0 = crate::graph::node_paths(graph.nodes@);
    let ghost e0 = graph.edges@;
    let ghost dold = diagnostics@;
    proof {
        assert(paths0.take(graph.nodes@.len() as int) =~= paths0);
        assert(e0.take(e0.len() as int) =~= e0);
    }
    let step = plan_import(importer_path, decl.path.as_str(), &decl.span, entry_dir, traversal_stack.as_slice(),
        visited.as_slice(), diagnostics);
    let ghost d1 = diagnostics@;
    let ghost p1 = import_plan(importer_path@, decl.path@, decl.span, entry_dir@,
        crate::ast::strings_view(old(traversal_stack)@), crate::ast::strings_view(old(visited)@)).1;
    proof { assert(d1.take(d1.len() as int) =~= d1); lemma_reported_first(d1, d1, dold, p1); }
    match step {
        ImportStep::Stop => {},
        ImportStep::Link(normalised) => {
            add_edge(importer_path, normalised.as_str(), edges_from_this_file, graph);
        },
        ImportStep::Read { normalised, fs_path } => {
            let written = written_path_text(decl.path.as_str());
            let source = match reader.read_file(fs_path.as_str()) {
                Ok(src) => src,
                Err(e) => {
                    report_read_failure(written.as_str(), normalised.as_str(), importer_path, &decl.span, &e, diagnostics);
                    proof { lemma_appended_grew(diagnostics@, d1); lemma_reported_first(d1, diagnostics@, dold, p1); }
                    return;
                },
            };
            // Casing mismatch detection.
            let filename = path_filename(normalised.as_str());
            let mut fs_dir = chars_of(entry_dir);
            push_str(&mut fs_dir, path_dir(normalised.as_str()));
            let fs_dir_s = string_from_chars(fs_dir);
            let canonical = reader.canonical_filename(fs_dir_s.as_str(), filename);
            let canon_ref: Option<&str> = match &canonical {
                Some(c) => Some(c.as_str()),
                None => None,
            };
            let outcome = load_file(written.as_str(), normalised.as_str(), canon_ref, source.as_str(), &decl.span,
                visited.as_slice(), diagnostics);
            proof {
                lemma_reported_first(d1, diagnostics@, dold, p1);
            }
            let (path, file_ast) = match outcome {
                LoadOutcome::Linked(path) => {
                    add_edge(importer_path, path.as_str(), edges_from_this_file, graph);
                    proof {
                        if graph.edges@ != e0 {
                            assert(graph.edges@.take(e0.len() as int) =~= graph.edges@.drop_last());
                        }
                    }
                    return;
                },
                LoadOutcome::Rejected => {
                    return;
                },
                LoadOutcome::Loaded(path, file_ast) => (path, file_ast),
            };
            let ghost d4 = diagnostics@;
            let new_imports = extract_import_decls(&file_ast);
            proof {
                // The new path is not in the graph yet.
                assert(!crate::ast::strings_view(visited@).contains(path@));
            }
            let ghost before_nodes = graph.nodes@;
            graph.nodes.push(crate::graph::FileNode { path: path.clone(), ast: file_ast, imports: Vec::new() });
            let ghost bv = visited@;
            visited.push(path.clone());
            proof {
                assert(crate::graph::node_paths(graph.nodes@) =~= crate::graph::node_paths(before_nodes).push(path@));
                assert(crate::ast::strings_view(visited@) =~= crate::ast::strings_view(bv).push(path@));
                assert forall|a: int, b: int| 0 <= a < b < crate::graph::node_paths(graph.nodes@).len()
                    implies crate::graph::node_paths(graph.nodes@)[a] != crate::graph::node_paths(graph.nodes@)[b] by {
                    if b == before_nodes.len() {
                        assert(crate::ast::strings_view(bv)[a] == crate::graph::node_paths(graph.nodes@)[a]);
                    }
                }
            }
            add_edge(importer_path, path.as_str(), edges_from_this_file, graph);
            let ghost e1 = graph.edges@;
            proof {
                if e1 != e0 {
                    assert(e1.take(e0.len() as int) =~= e1.drop_last());
                }
            }
            traversal_stack.push(path.clone());
            let ghost mid_len = graph.nodes@.len();
            let ghost mid_paths = crate::graph::node_paths(graph.nodes@);
            assert(mid_paths[paths0.len() as int] == path@);
            process_imports(path.as_str(), &new_imports, entry_dir, graph, visited, traversal_stack, diagnostics, reader);
            traversal_stack.pop();
            proof {
                assert(traversal_stack@ =~= old(traversal_stack)@);
                assert(crate::graph::node_paths(graph.nodes@).take(paths0.len() as int)
                    =~= crate::graph::node_paths(graph.nodes@).take(mid_len as int).take(paths0.len() as int));
                assert(crate::graph::node_paths(graph.nodes@).take(mid_len as int)[paths0.len() as int]
                    == crate::graph::node_paths(graph.nodes@)[paths0.len() as int]);
                assert(crate::graph::node_paths(graph.nodes@)[paths0.len() as int] == path@);
                assert(path@ == cased_path(normalised@, opt_text_view(canon_ref)));
                let c = opt_text_view(canon_ref);
                assert(!crate::ast::strings_view(old(visited)@).contains(cased_path(normalised@, c)));
                assert(graph.nodes@.len() > paths0.len());
                assert(crate::graph::node_paths(graph.nodes@)[paths0.len() as int] == cased_path(normalised@, c));
                assert(paths0.len() == old(graph).nodes@.len());
                assert(crate::graph::node_paths(graph.nodes@)[old(graph).nodes@.len() as int] == cased_path(normalised@, c));
                let pp = import_plan(importer_path@, decl.path@, decl.span, entry_dir@,
                    crate::ast::strings_view(old(traversal_stack)@), crate::ast::strings_view(old(visited)@));
                assert(pp.0 == ImportStepV::Read(normalised@, fs_path@));
                assert(added_file(crate::graph::node_paths(graph.nodes@), old(graph).nodes@.len() as int,
                    crate::ast::strings_view(old(visited)@), normalised@));
                lemma_grew_trans(e0, e1, graph.edges@);
                lemma_grew_trans(d1, d4, diagnostics@);
                lemma_reported_first(d1, diagnostics@, dold, p1);
            }
        },
    }
    proof {
        if graph.edges@.len() == e0.len() + 1 && graph.edges@.drop_last() == e0 {
            assert(graph.edges@.take(e0.len() as int) =~= graph.edges@.drop_last());
        }
    }
}

/// The path as written, trimmed, with backslashes turned into slashes.
fn written_path_text(decl_path: &str) -> (w: String)
    ensures
        w@ == written_path_of(decl_path@),
{
    let raw = chars_of(decl_path);
    let trimmed = crate::text::trim_chars(&raw);
    proof { reveal_strlit("\\"); }
    string_from_chars(crate::text::replace_chars(&trimmed, "\\", "/"))
}

} // verus!
