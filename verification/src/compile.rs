//! What a compilation produces, and how the entry file's name is split.

use vstd::prelude::*;
use crate::diagnostics::{appended, Diagnostic, DiagnosticCollector};
use crate::value_check::validate_reports;
use crate::facts::{FactSet, PropertyDependencyIndex};
use crate::import::{dir_of, filename_of, path_dir, path_filename};
use crate::text::{chars_of, replace_all, replace_chars, string_from_chars};
use crate::graph::FileNode;
use crate::import::{FileReader, StubFileReader};
use crate::symbol_table::SymbolTable;

verus! {

broadcast use vstd::string::group_string_axioms;

/// The result of a compilation.
pub struct CompilationResult {
    /// `true` if compilation succeeded with zero errors.
    pub success: bool,
    /// The compiled JSON string, or `None` if any errors occurred.
    pub world: Option<String>,
    /// All diagnostics (errors, warnings, info) from all phases.
    pub diagnostics: DiagnosticCollector,
    /// Normalized analysis IR. `Some` whenever LINK succeeds, even if
    /// VALIDATE emits errors. `None` only on PARSE or IMPORT failure.
    pub fact_set: Option<FactSet>,
    /// Property dependency index built from the FactSet. `Some` whenever
    /// `fact_set` is `Some`.
    pub property_index: Option<PropertyDependencyIndex>,
}

/// The entry file name with backslashes turned into forward slashes.
pub open spec fn normalised_entry(filename: Seq<char>) -> Seq<char> {
    replace_all(filename, "\\"@, "/"@)
}

/// Split the entry file's name into the directory its imports are read
/// from (with its trailing `/`, empty for none) and the file's own name.
pub fn split_entry_path(filename: &str) -> (r: (String, String))
    ensures
        r.0@ == dir_of(normalised_entry(filename@)),
        r.1@ == filename_of(normalised_entry(filename@)),
        r.0@ + r.1@ == normalised_entry(filename@),
{
    let v = chars_of(filename);
    proof { reveal_strlit("\\"); }
    let n = replace_chars(&v, "\\", "/");
    let s = string_from_chars(n);
    let d = path_dir(s.as_str());
    let f = path_filename(s.as_str());
    proof { crate::import::lemma_dir_filename(s@); }
    (string_from_chars(chars_of(d)), string_from_chars(chars_of(f)))
}

/// What the phases before EMIT leave for it: the files in compilation
/// order, linked, and the symbol table.
pub struct LinkedWorld {
    pub files: Vec<FileNode>,
    /// The entry file's path.
    pub entry_path: String,
    pub symbol_table: SymbolTable,
}

/// The position of the first file with this path.
pub open spec fn first_path(rest: Seq<FileNode>, path: Seq<char>) -> Option<int>
    decreases rest.len(),
{
    if rest.len() == 0 {
        None
    } else if rest[0].path@ == path {
        Some(0)
    } else {
        match first_path(rest.drop_first(), path) {
            Some(i) => Some(i + 1),
            None => None,
        }
    }
}

pub(crate) proof fn lemma_first_path(rest: Seq<FileNode>, path: Seq<char>)
    ensures
        match first_path(rest, path) {
            Some(i) => 0 <= i < rest.len() && rest[i].path@ == path
                && forall|j: int| 0 <= j < i ==> (#[trigger] rest[j]).path@ != path,
            None => forall|j: int| 0 <= j < rest.len() ==> (#[trigger] rest[j]).path@ != path,
        },
    decreases rest.len(),
{
    if rest.len() > 0 {
        lemma_first_path(rest.drop_first(), path);
        if rest[0].path@ != path {
            assert forall|j: int| 0 < j < rest.len() implies rest[j] == rest.drop_first()[j - 1] by {}
        }
    }
}

/// The files of `rest` in the order of `order`: for each path, the first
/// file left with that path, taken out; a path with no file left is
/// passed over.
pub open spec fn files_taken(rest: Seq<FileNode>, order: Seq<Seq<char>>) -> Seq<FileNode>
    decreases order.len(),
{
    if order.len() == 0 {
        Seq::empty()
    } else {
        match first_path(rest, order[0]) {
            Some(x) => seq![rest[x]] + files_taken(rest.remove(x), order.drop_first()),
            None => files_taken(rest, order.drop_first()),
        }
    }
}

/// Take the files out of `nodes` in the order of `order`; a path with no
/// file is passed over.
fn files_in_order(nodes: Vec<FileNode>, order: &Vec<String>) -> (files: Vec<FileNode>)
    ensures
        files@ == files_taken(nodes@, crate::ast::strings_view(order@)),
        files@.len() <= order@.len(),
        forall|k: int| 0 <= k < files@.len() ==> nodes@.contains(#[trigger] files@[k]),
{
    let ghost sv = crate::ast::strings_view(order@);
    let ghost n0 = nodes@;
    let mut rest = nodes;
    let mut files: Vec<FileNode> = Vec::new();
    proof { assert(sv.skip(0) =~= sv); assert(files@ + files_taken(rest@, sv.skip(0)) =~= files_taken(n0, sv)); }
    let mut i: usize = 0;
    while i < order.len()
        invariant
            i <= order.len(),
            sv == crate::ast::strings_view(order@),
            files@.len() <= i,
            files@ + files_taken(rest@, sv.skip(i as int)) == files_taken(n0, sv),
            forall|k: int| 0 <= k < files@.len() ==> n0.contains(#[trigger] files@[k]),
            forall|k: int| 0 <= k < rest@.len() ==> n0.contains(#[trigger] rest@[k]),
        decreases order.len() - i,
    {
        let ghost pth = order@[i as int]@;
        let mut q: usize = 0;
        let mut found: Option<usize> = None;
        while q < rest.len()
            invariant
                i < order.len(),
                q <= rest.len(),
                pth == order@[i as int]@,
                forall|k: int| 0 <= k < q ==> (#[trigger] rest@[k]).path@ != pth,
                match found {
                    Some(x) => x < rest.len() && rest@[x as int].path@ == pth
                        && forall|k: int| 0 <= k < x ==> (#[trigger] rest@[k]).path@ != pth,
                    None => true,
                },
            ensures
                i < order.len(),
                pth == order@[i as int]@,
                match found {
                    Some(x) => x < rest.len() && rest@[x as int].path@ == pth
                        && forall|k: int| 0 <= k < x ==> (#[trigger] rest@[k]).path@ != pth,
                    None => forall|k: int| 0 <= k < rest@.len() ==> (#[trigger] rest@[k]).path@ != pth,
                },
            decreases rest.len() - q,
        {
            if crate::text::str_equals(rest[q].path.as_str(), order[i].as_str()) {
                found = Some(q);
                break;
            }
            q += 1;
        }
        proof {
            lemma_first_path(rest@, pth);
            assert(sv.skip(i as int)[0] == pth);
            assert(sv.skip(i as int).drop_first() =~= sv.skip(i + 1));
        }
        match found {
            Some(x) => {
                let ghost r0 = rest@;
                let ghost f0 = files@;
                proof {
                    let w = first_path(r0, pth).unwrap();
                    if w < x { assert(r0[w].path@ != pth); } else if w > x { assert(r0[x as int].path@ != pth); }
                    assert(first_path(r0, pth) == Some(x as int));
                }
                let node = rest.remove(x);
                assert(node == r0[x as int]);
                assert(n0.contains(r0[x as int]));
                files.push(node);
                proof {
                    assert(files@ + files_taken(rest@, sv.skip(i + 1)) =~= f0 + files_taken(r0, sv.skip(i as int)));
                    assert forall|k: int| 0 <= k < files@.len() implies n0.contains(#[trigger] files@[k]) by {
                        if k < f0.len() { assert(files@[k] == f0[k]); }
                    }
                    assert forall|k: int| 0 <= k < rest@.len() implies n0.contains(#[trigger] rest@[k]) by {
                        if k < x { assert(rest@[k] == r0[k]); } else { assert(rest@[k] == r0[k + 1]); }
                    }
                }
            },
            None => {
                proof {
                    if first_path(rest@, pth) is Some {
                        let w = first_path(rest@, pth).unwrap();
                        assert(rest@[w].path@ != pth);
                    }
                }
            },
        }
        i += 1;
    }
    proof { assert(sv.skip(order@.len() as int).len() == 0); assert(files@ + Seq::<FileNode>::empty() =~= files@); }
    files
}

/// Whether an error is among the diagnostics.
pub open spec fn has_error(d: Seq<crate::diagnostics::Diagnostic>) -> bool {
    exists|i: int| 0 <= i < d.len() && (#[trigger] d[i]).severity == crate::diagnostics::Severity::Error
}

/// What the phases after IMPORT make of the files `f0` that IMPORT found,
/// in compilation order, and of the diagnostics `d2` it left: LINK turns
/// them into the world `w`, the facts `fs` are extracted from that world,
/// and the diagnostics `out` are `d2`, then LINK's reports, then ANALYZE's
/// warnings on `fs`, then VALIDATE's reports on `w`.
pub open spec fn after_import(f0: Seq<FileNode>, d2: Seq<Diagnostic>, w: LinkedWorld, fs: FactSet, out: Seq<Diagnostic>) -> bool {
    exists|d3: Seq<Diagnostic>, found: Seq<Diagnostic>| {
        &&& crate::collect::link_post(f0, w.files@, w.symbol_table, d2, d3)
        &&& crate::extract::extracted(fs, w.files@, w.symbol_table)
        &&& crate::analyze::analysis(fs, found)
        &&& appended(out, d3 + found, validate_reports(w.files@, w.symbol_table))
    }
}

/// What the phases before EMIT leave of a compilation of the entry file
/// `filename` with text `source`, whatever IMPORT's reader returned: its
/// diagnostics, fact set and property index, and the linked world `w`
/// when LINK ran.
/// - PARSE gives the outcome `a` and the diagnostics `d1`. Where it gives
///   no file, nothing more is done.
/// - Otherwise IMPORT adds its reports. Where an error is among them,
///   nothing more is done: no world, no fact set, no property index.
///   An entry with no imports and no error always goes on.
/// - Otherwise LINK, ANALYZE and VALIDATE run on the files IMPORT found
///   (`after_import`), and the fact set and property index are there.
pub open spec fn phases_post(filename: Seq<char>, source: &str, r: CompilationResult, w: Option<LinkedWorld>) -> bool {
    &&& (w is Some <==> r.fact_set is Some)
    &&& (w is Some <==> r.property_index is Some)
    &&& (w is None ==> has_error(r.diagnostics@))
    &&& (w matches Some(lw) ==> lw.entry_path@ == filename_of(normalised_entry(filename)))
    &&& exists|a: Option<crate::ast::FileAst>, d1: Seq<crate::diagnostics::Diagnostic>| {
        &&& crate::content::parse_outcome(filename_of(normalised_entry(filename)), source, Seq::empty(), d1, a)
        &&& crate::import::grew(r.diagnostics@, d1)
        &&& (a is None ==> w is None && r.diagnostics@ == d1)
        &&& (a matches Some(ast) ==> (crate::import::import_decls_of(ast).len() == 0 && !has_error(d1)
            ==> w is Some))
        &&& (w matches Some(lw) ==> exists|f0: Seq<FileNode>, d2: Seq<Diagnostic>| {
            &&& crate::import::grew(d2, d1)
            &&& !has_error(d2)
            &&& after_import(f0, d2, lw, r.fact_set.unwrap(), r.diagnostics@)
        })
    }
    &&& match r.fact_set {
        Some(fs) => {
            &&& fs.wf()
            &&& crate::extract::sites_ok(fs.spec_reads(), fs.spec_writes(), fs.spec_choices(), fs.spec_rules())
            &&& r.property_index.unwrap().spec_read_keys() == crate::facts::read_keys(fs.spec_reads())
            &&& r.property_index.unwrap().spec_write_keys() == crate::facts::write_keys(fs.spec_writes())
        },
        None => true,
    }
}

/// Run the phases of a compilation up to EMIT: PARSE the entry source,
/// IMPORT its files through `reader`, and, when neither reported an error,
/// LINK the files in compilation order, extract the facts and their
/// property index, ANALYZE the facts and VALIDATE the world. The linked
/// world is handed back for EMIT when the phases ran that far.
pub fn compile_phases<R: FileReader>(filename: &str, source: &str, reader: &R) -> (r: (CompilationResult, Option<LinkedWorld>))
    ensures
        !r.0.success,
        r.0.world is None,
        phases_post(filename@, source, r.0, r.1),
{
    let mut diagnostics = DiagnosticCollector::new();
    let (entry_dir, entry_filename) = split_entry_path(filename);
    let parsed = crate::parse::parse(entry_filename.as_str(), source, &mut diagnostics);
    let ghost d1 = diagnostics@;
    let ghost a = parsed;
    proof { assert(d1.take(d1.len() as int) =~= d1); }
    let entry_ast = match parsed {
        Some(ast) => ast,
        None => {
            assert(diagnostics@[diagnostics@.len() - 1].severity == crate::diagnostics::Severity::Error);
            return (CompilationResult { success: false, world: None, diagnostics, fact_set: None, property_index: None }, None);
        },
    };
    let entry_path = string_from_chars(chars_of(entry_ast.path.as_str()));
    let unit = crate::import::resolve_imports_with_reader(entry_ast, entry_dir.as_str(), &mut diagnostics, reader);
    if diagnostics.has_errors() {
        return (CompilationResult { success: false, world: None, diagnostics, fact_set: None, property_index: None }, None);
    }
    let ghost d2 = diagnostics@;
    let ordered = unit.ordered_asts;
    let mut files = files_in_order(unit.graph.nodes, &ordered);
    let ghost f0 = files@;
    let symbol_table = crate::collect::link(&mut files, &mut diagnostics);
    let ghost d3 = diagnostics@;
    proof {
        let c = crate::collect::files_collect(f0, crate::collect::empty_table_v());
        let mid = (d2.len() + c.2.len()) as int;
        assert(d3.take(d2.len() as int) =~= d3.take(mid).take(d2.len() as int));
        crate::import::lemma_grew_trans(d1, d2, d3);
    }
    let fact_set = crate::extract::extract_facts(&files, &symbol_table);
    let property_index = PropertyDependencyIndex::build(&fact_set);
    let mut rest = crate::analyze::analyze(&fact_set);
    let ghost found = rest@;
    proof { assert(d3.take(d3.len() as int) =~= d3); assert(d3 + found =~= diagnostics@ + rest@); }
    while rest.len() > 0
        invariant
            diagnostics@ + rest@ == d3 + found,
            diagnostics@.len() >= d3.len(),
        decreases rest.len(),
    {
        let ghost before = diagnostics@;
        let ghost r0 = rest@;
        let d = rest.remove(0);
        diagnostics.emit(d);
        proof {
            assert(diagnostics@ + rest@ =~= before + r0);
        }
    }
    let ghost d4 = diagnostics@;
    proof { assert(d4 =~= d4 + rest@); assert(d4 =~= d3 + found); assert(d4.take(d3.len() as int) =~= d3); }
    crate::value_check::validate(&files, &symbol_table, &mut diagnostics);
    proof {
        assert(diagnostics@.take(d4.len() as int) == d4);
        assert(d4.take(d3.len() as int) == d3);
        crate::import::lemma_grew_trans(d3, d4, diagnostics@);
        crate::import::lemma_grew_trans(d1, d3, diagnostics@);
        assert(crate::collect::link_post(f0, files@, symbol_table, d2, d3));
        assert(crate::extract::extracted(fact_set, files@, symbol_table));
        assert(crate::analyze::analysis(fact_set, found));
    }
    let ghost fs = fact_set;
    let ghost dall = diagnostics@;
    let w = LinkedWorld { files, entry_path, symbol_table };
    proof {
        assert(crate::import::grew(d2, d1));
        assert(!has_error(d2));
        assert(after_import(f0, d2, w, fs, dall));
        assert(exists|f: Seq<FileNode>, e: Seq<Diagnostic>| {
            &&& crate::import::grew(e, d1)
            &&& !has_error(e)
            &&& after_import(f, e, w, fs, dall)
        });
    }
    let res = (
        CompilationResult { success: false, world: None, diagnostics, fact_set: Some(fact_set), property_index: Some(property_index) },
        Some(w),
    );
    proof {
        assert(crate::content::parse_outcome(filename_of(normalised_entry(filename@)), source, Seq::empty(), d1, a));
        assert(crate::import::grew(res.0.diagnostics@, d1));
        assert(res.0.fact_set.unwrap() == fs);
        assert(res.0.diagnostics@ == dall);
        assert(res.1.unwrap() == w);
        assert(after_import(f0, d2, res.1.unwrap(), res.0.fact_set.unwrap(), res.0.diagnostics@));
        assert(res.1 matches Some(w) ==> exists|f: Seq<FileNode>, e: Seq<Diagnostic>| {
            &&& crate::import::grew(e, d1)
            &&& !has_error(e)
            &&& after_import(f, e, w, res.0.fact_set.unwrap(), res.0.diagnostics@)
        });
    }
    res
}

/// The compiled text of a linked world.
pub open spec fn emitted(w: LinkedWorld) -> Seq<char> {
    crate::json::json_pretty_text(crate::emit::world_document(w.files@, w.entry_path@, w.symbol_table)) + "\n"@
}

/// Compile a `.urd.md` source string, reading its imports through `reader`:
/// PARSE, IMPORT, LINK, ANALYZE, VALIDATE, and EMIT where no error was
/// reported. Compilation succeeds exactly when no diagnostic is an error,
/// and then, only then, the world is there: the text EMIT writes for the
/// linked world.
pub fn compile_source_with_reader<R: FileReader>(filename: &str, source: &str, reader: &R) -> (r: CompilationResult)
    ensures
        r.success == !has_error(r.diagnostics@),
        r.world is Some <==> r.success,
        exists|w: Option<LinkedWorld>| {
            &&& phases_post(filename@, source, r, w)
            &&& (r.world matches Some(text) ==> w matches Some(lw) && text@ == emitted(lw))
        },
{
    let (res, linked) = compile_phases(filename, source, reader);
    let ghost w = linked;
    match linked {
        Some(lw) => {
            if res.diagnostics.has_errors() {
                let r = CompilationResult { success: false, world: res.world, diagnostics: res.diagnostics,
                    fact_set: res.fact_set, property_index: res.property_index };
                assert(phases_post(filename@, source, r, w));
                r
            } else {
                let text = crate::emit::emit(&lw.files, lw.entry_path.as_str(), &lw.symbol_table);
                let r = CompilationResult { success: true, world: Some(text), diagnostics: res.diagnostics,
                    fact_set: res.fact_set, property_index: res.property_index };
                assert(phases_post(filename@, source, r, w));
                r
            }
        },
        None => {
            assert(phases_post(filename@, source, res, w));
            res
        },
    }
}

/// Compile a single `.urd.md` source string in single-file mode: no file
/// can be read, so each import is reported as not found.
pub fn compile_source(filename: &str, source: &str) -> (r: CompilationResult)
    ensures
        r.success == !has_error(r.diagnostics@),
        r.world is Some <==> r.success,
        exists|w: Option<LinkedWorld>| {
            &&& phases_post(filename@, source, r, w)
            &&& (r.world matches Some(text) ==> w matches Some(lw) && text@ == emitted(lw))
        },
{
    compile_source_with_reader(filename, source, &StubFileReader)
}

/// EMIT is deterministic: two linked worlds with the same files, entry
/// path and symbol table are compiled to the same text.
pub proof fn lemma_emit_deterministic(a: LinkedWorld, b: LinkedWorld)
    requires
        a.files@ == b.files@,
        a.entry_path@ == b.entry_path@,
        a.symbol_table == b.symbol_table,
    ensures
        emitted(a) == emitted(b),
{
}

/// A compilation that succeeds has no error among its diagnostics and
/// carries the world, the fact set and the property index; one that fails
/// carries no world.
pub proof fn lemma_success_means_world(filename: Seq<char>, source: &str, r: CompilationResult, w: Option<LinkedWorld>)
    requires
        r.success == !has_error(r.diagnostics@),
        r.world is Some <==> r.success,
        phases_post(filename, source, r, w),
    ensures
        r.success ==> r.world is Some && r.fact_set is Some && r.property_index is Some,
        !r.success ==> r.world is None && has_error(r.diagnostics@),
{
}

} // verus!
