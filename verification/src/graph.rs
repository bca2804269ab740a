//! Limits of a compilation unit and file-stem derivation.

use vstd::prelude::*;
use crate::text::{chars_end_with, chars_of, ends_with, last_char_index, rfind_char, slice_chars, string_from_chars};
use crate::ast::FileAst;

verus! {

broadcast use vstd::string::group_string_axioms;

/// A node in the dependency graph: one parsed file and the files it
/// imports.
#[derive(Debug)]
pub struct FileNode {
    pub path: String,
    pub ast: FileAst,
    pub imports: Vec<String>,
}

/// The paths of graph nodes, in order.
pub open spec fn node_paths(nodes: Seq<FileNode>) -> Seq<Seq<char>> {
    nodes.map_values(|n: FileNode| n.path@)
}

/// The dependency graph that IMPORT builds: the files in the order they
/// were discovered (the entry file first), each once, and the import
/// edges.
#[derive(Debug)]
pub struct DependencyGraph {
    pub nodes: Vec<FileNode>,
    pub edges: Vec<(String, String)>,
    /// The entry file's normalised path. Set by IMPORT.
    pub entry_path: Option<String>,
}

impl DependencyGraph {
    /// A graph with no files.
    pub fn new() -> (g: Self)
        ensures
            g.nodes@.len() == 0,
            g.edges@.len() == 0,
            g.entry_path is None,
    {
        DependencyGraph { nodes: Vec::new(), edges: Vec::new(), entry_path: None }
    }

    /// Each file is in the graph once.
    pub open spec fn wf(&self) -> bool {
        node_paths(self.nodes@).no_duplicates()
    }
}

/// What IMPORT produces: the graph and the files' paths in compilation
/// order (dependencies first, the entry file last).
#[derive(Debug)]
pub struct CompilationUnit {
    pub graph: DependencyGraph,
    pub ordered_asts: Vec<String>,
}

/// Maximum import chain depth.
pub const MAX_IMPORT_DEPTH: usize = 64;

/// Maximum files in a compilation unit.
pub const MAX_FILE_COUNT: usize = 256;

/// Maximum file size in bytes (1 MB).
pub const MAX_FILE_SIZE: usize = 1_048_576;

/// Maximum choice nesting depth (error at 4, warn at 3).
pub const MAX_CHOICE_NESTING_DEPTH: usize = 4;

/// Choice nesting depth that triggers a warning.
pub const WARN_CHOICE_NESTING_DEPTH: usize = 3;

/// Maximum frontmatter nesting depth.
pub const MAX_FRONTMATTER_NESTING_DEPTH: usize = 8;

/// The last `/`-separated segment of a path (the whole path when it has no `/`).
pub open spec fn path_name(p: Seq<char>) -> Seq<char> {
    match last_char_index(p, '/') {
        Some(i) => p.skip(i + 1),
        None => p,
    }
}

/// `s` without the suffix `suf`, or `s` itself when it does not end with it.
pub open spec fn strip_suffix_or_keep(s: Seq<char>, suf: Seq<char>) -> Seq<char> {
    if ends_with(s, suf) { s.take(s.len() - suf.len()) } else { s }
}

/// The stem of a path: its file name without the `.urd.md` extension.
pub open spec fn file_stem_of(p: Seq<char>) -> Seq<char> {
    strip_suffix_or_keep(path_name(p), ".urd.md"@)
}

/// Extract the file stem from a path: strip directory and `.urd.md` extension.
/// `content/tavern.urd.md` → `tavern`
pub fn file_stem(path: &str) -> (stem: String)
    ensures
        stem@ == file_stem_of(path@),
{
    let v = chars_of(path);
    proof {
        crate::text::lemma_last_char_index(v@, '/');
        reveal_strlit(".urd.md");
    }
    let name = match rfind_char(&v, '/') {
        Some(i) => slice_chars(&v, i + 1, v.len()),
        None => v,
    };
    let stripped = if chars_end_with(&name, ".urd.md") {
        slice_chars(&name, 0, name.len() - 7)
    } else {
        name
    };
    string_from_chars(stripped)
}

// ── Compilation order ──

/// Whether the file at position `k` may come next after `out`: it is not
/// the excluded entry file, it has not come yet, and (when `deps`) every
/// file it imports that is in the graph has come.
pub open spec fn ready_at(nodes: Seq<FileNode>, skip: Option<Seq<char>>, deps: bool, out: Seq<Seq<char>>, k: int) -> bool {
    &&& 0 <= k < nodes.len()
    &&& skip != Some(nodes[k].path@)
    &&& !out.contains(nodes[k].path@)
    &&& deps ==> forall|j: int| 0 <= j < nodes[k].imports@.len()
        ==> (node_paths(nodes).contains(#[trigger] nodes[k].imports@[j]@) ==> out.contains(nodes[k].imports@[j]@))
}

/// `x` is the least (by text) file that may come after `prefix`.
pub open spec fn greedy_step(nodes: Seq<FileNode>, skip: Option<Seq<char>>, deps: bool, prefix: Seq<Seq<char>>, x: Seq<char>) -> bool {
    &&& exists|i: int| #[trigger] ready_at(nodes, skip, deps, prefix, i) && nodes[i].path@ == x
    &&& forall|j: int| ready_at(nodes, skip, deps, prefix, j) ==> crate::text::lex_order(x, nodes[j].path@) <= 0
}

/// Each entry of `r` is the least file that may come after the ones before it.
pub open spec fn greedy_prefix(nodes: Seq<FileNode>, skip: Option<Seq<char>>, deps: bool, r: Seq<Seq<char>>) -> bool {
    forall|k: int| 0 <= k < r.len() ==> #[trigger] greedy_step(nodes, skip, deps, r.take(k), r[k])
}

/// `r` takes, at each step, the least (by text) file that may come next,
/// until none may.
pub open spec fn is_greedy_order(nodes: Seq<FileNode>, skip: Option<Seq<char>>, deps: bool, r: Seq<Seq<char>>) -> bool {
    &&& greedy_prefix(nodes, skip, deps, r)
    &&& forall|j: int| !ready_at(nodes, skip, deps, r, j)
}

fn in_list(v: &Vec<String>, x: &str) -> (b: bool)
    ensures
        b == crate::ast::strings_view(v@).contains(x@),
{
    crate::link::in_scope(v, x)
}

fn is_ready(nodes: &Vec<FileNode>, skip: &Option<String>, deps: bool, out: &Vec<String>, k: usize) -> (b: bool)
    requires
        k < nodes.len(),
    ensures
        b == ready_at(nodes@, crate::ast::opt_view(*skip), deps, crate::ast::strings_view(out@), k as int),
{
    let p = nodes[k].path.as_str();
    match skip {
        Some(e) => {
            if crate::text::str_equals(e.as_str(), p) {
                assert(crate::ast::opt_view(*skip) == Some(nodes@[k as int].path@));
                return false;
            }
        },
        None => {},
    }
    if in_list(out, p) {
        return false;
    }
    if !deps {
        return true;
    }
    let ghost paths = node_paths(nodes@);
    let mut j: usize = 0;
    while j < nodes[k].imports.len()
        invariant
            k < nodes.len(),
            deps,
            p@ == nodes@[k as int].path@,
            !crate::ast::strings_view(out@).contains(p@),
            crate::ast::opt_view(*skip) != Some(p@),
            j <= nodes@[k as int].imports@.len(),
            paths == node_paths(nodes@),
            forall|m: int| 0 <= m < j ==> (paths.contains(#[trigger] nodes@[k as int].imports@[m]@)
                ==> crate::ast::strings_view(out@).contains(nodes@[k as int].imports@[m]@)),
        decreases nodes@[k as int].imports@.len() - j,
    {
        let imp = nodes[k].imports[j].as_str();
        if !in_list(out, imp) {
            // Is the import a file of the graph?
            let mut q: usize = 0;
            while q < nodes.len()
                invariant
                    k < nodes.len(),
                    deps,
                    !crate::ast::strings_view(out@).contains(imp@),
                    j < nodes[k as int].imports@.len(),
                    imp@ == nodes@[k as int].imports@[j as int]@,
                    paths == node_paths(nodes@),
                    q <= nodes.len(),
                    forall|m: int| 0 <= m < q ==> paths[m] != imp@,
                decreases nodes.len() - q,
            {
                if crate::text::str_equals(nodes[q].path.as_str(), imp) {
                    assert(paths[q as int] == imp@);
                    assert(paths.contains(nodes@[k as int].imports@[j as int]@));
                    return false;
                }
                q += 1;
            }
            proof {
                if paths.contains(imp@) {
                    let m = choose|m: int| 0 <= m < paths.len() && paths[m] == imp@;
                    assert(paths[m] != imp@);
                }
            }
        }
        j += 1;
    }
    true
}

proof fn lemma_out_bounded(out: Seq<Seq<char>>, paths: Seq<Seq<char>>)
    requires
        out.no_duplicates(),
        forall|k: int| 0 <= k < out.len() ==> paths.contains(#[trigger] out[k]),
    ensures
        out.len() <= paths.len(),
{
    out.unique_seq_to_set();
    paths.lemma_cardinality_of_set();
    assert(out.to_set().subset_of(paths.to_set())) by {
        assert forall|x: Seq<char>| out.to_set().contains(x) implies paths.to_set().contains(x) by {
            let k = choose|k: int| 0 <= k < out.len() && out[k] == x;
            assert(paths.contains(out[k]));
        }
    }
    vstd::set_lib::lemma_len_subset(out.to_set(), paths.to_set());
}

/// The greedy order: at each step the least file that may come next.
fn greedy_order(nodes: &Vec<FileNode>, skip: &Option<String>, deps: bool) -> (r: Vec<String>)
    ensures
        is_greedy_order(nodes@, crate::ast::opt_view(*skip), deps, crate::ast::strings_view(r@)),
{
    let ghost paths = node_paths(nodes@);
    let ghost sk = crate::ast::opt_view(*skip);
    let mut out: Vec<String> = Vec::new();
    loop
        invariant
            paths == node_paths(nodes@),
            sk == crate::ast::opt_view(*skip),
            crate::ast::strings_view(out@).no_duplicates(),
            forall|k: int| 0 <= k < out@.len() ==> paths.contains(#[trigger] crate::ast::strings_view(out@)[k]),
            greedy_prefix(nodes@, sk, deps, crate::ast::strings_view(out@)),
        ensures
            is_greedy_order(nodes@, sk, deps, crate::ast::strings_view(out@)),
        decreases nodes@.len() - out@.len(),
    {
        let ghost ov = crate::ast::strings_view(out@);
        proof { lemma_out_bounded(ov, paths); }
        let mut best: Option<usize> = None;
        let mut i: usize = 0;
        while i < nodes.len()
            invariant
                i <= nodes.len(),
                ov == crate::ast::strings_view(out@),
                paths == node_paths(nodes@),
                sk == crate::ast::opt_view(*skip),
                match best {
                    Some(b) => b < i && ready_at(nodes@, sk, deps, ov, b as int)
                        && forall|j: int| 0 <= j < i && ready_at(nodes@, sk, deps, ov, j)
                            ==> crate::text::lex_order(nodes@[b as int].path@, nodes@[j].path@) <= 0,
                    None => forall|j: int| 0 <= j < i ==> !ready_at(nodes@, sk, deps, ov, j),
                },
            decreases nodes.len() - i,
        {
            if is_ready(nodes, skip, deps, &out, i) {
                match best {
                    Some(b) => {
                        let pb = chars_of(nodes[b].path.as_str());
                        let pi = chars_of(nodes[i].path.as_str());
                        if crate::text::compare_chars(&pi, &pb) < 0 {
                            proof {
                                assert forall|j: int| 0 <= j < i + 1 && ready_at(nodes@, sk, deps, ov, j)
                                    implies crate::text::lex_order(nodes@[i as int].path@, nodes@[j].path@) <= 0 by {
                                    crate::text::lemma_lex_order_antisym(nodes@[i as int].path@, nodes@[j].path@);
                                    if j < i && crate::text::lex_order(nodes@[b as int].path@, nodes@[j].path@) < 0 {
                                        crate::text::lemma_lex_order_trans(nodes@[i as int].path@, nodes@[b as int].path@,
                                            nodes@[j].path@);
                                    }
                                    crate::text::lemma_lex_order_antisym(nodes@[b as int].path@, nodes@[j].path@);
                                }
                            }
                            best = Some(i);
                        } else {
                            proof {
                                crate::text::lemma_lex_order_antisym(nodes@[i as int].path@, nodes@[b as int].path@);
                            }
                        }
                    },
                    None => {
                        proof {
                            crate::text::lemma_lex_order_antisym(nodes@[i as int].path@, nodes@[i as int].path@);
                        }
                        best = Some(i);
                    },
                }
            }
            i += 1;
        }
        match best {
            None => {
                assert(forall|j: int| !ready_at(nodes@, sk, deps, ov, j));
                return out;
            },
            Some(b) => {
                let ghost before = out@;
                out.push(nodes[b].path.clone());
                proof {
                    let nv = crate::ast::strings_view(out@);
                    assert(nv =~= ov.push(nodes@[b as int].path@));
                    assert(nv.take(ov.len() as int) =~= ov);
                    assert(paths[b as int] == nodes@[b as int].path@);
                    assert(!ov.contains(nodes@[b as int].path@));
                    assert forall|x: int, y: int| 0 <= x < y < nv.len() implies nv[x] != nv[y] by {
                        if y == ov.len() {
                            assert(nv[x] == ov[x]);
                        } else {
                            assert(nv[x] == ov[x] && nv[y] == ov[y]);
                        }
                    }
                    assert forall|k: int| 0 <= k < out@.len() implies paths.contains(#[trigger] crate::ast::strings_view(out@)[k]) by {
                        if k < ov.len() { assert(nv[k] == ov[k]); }
                    }
                    assert forall|k: int| 0 <= k < nv.len() implies #[trigger] greedy_step(nodes@, sk, deps, nv.take(k), nv[k]) by {
                        if k < ov.len() {
                            assert(nv.take(k) =~= ov.take(k));
                            assert(nv[k] == ov[k]);
                            assert(greedy_step(nodes@, sk, deps, ov.take(k), ov[k]));
                        } else {
                            assert(nv.take(k) =~= ov);
                            assert(ready_at(nodes@, sk, deps, ov, b as int));
                            assert(nodes@[b as int].path@ == nv[k]);
                        }
                    }
                    lemma_out_bounded(nv, paths);
                }
            },
        }
    }
}

/// The entry path as a plain value.
pub open spec fn opt_path(e: Option<String>) -> Option<Seq<char>> {
    match e {
        Some(p) => Some(p@),
        None => None,
    }
}

/// `r` is the compilation order of the files `nodes` with the entry file
/// `entry`: without an entry, every file least first (by text); with one,
/// and more than one file, the files that may come before it (each after
/// the files it imports), least ready first, then the entry; a graph of at
/// most one file, as it is.
pub open spec fn is_compilation_order(nodes: Seq<FileNode>, entry: Option<Seq<char>>, r: Seq<Seq<char>>) -> bool {
    match entry {
        None => is_greedy_order(nodes, None, false, r),
        Some(e) => if nodes.len() <= 1 {
            r == node_paths(nodes)
        } else {
            &&& r.len() >= 1
            &&& r.last() == e
            &&& is_greedy_order(nodes, Some(e), true, r.drop_last())
        },
    }
}

/// The files in compilation order: dependencies first (ties broken by
/// path), the entry file last. Without an entry file, all paths sorted; a
/// graph of at most one file, as it is.
pub fn topological_order(graph: &DependencyGraph) -> (r: Vec<String>)
    ensures
        is_compilation_order(graph.nodes@, opt_path(graph.entry_path), crate::ast::strings_view(r@)),
{
    match &graph.entry_path {
        None => greedy_order(&graph.nodes, &None, false),
        Some(e) => {
            if graph.nodes.len() <= 1 {
                let mut r: Vec<String> = Vec::new();
                let mut i: usize = 0;
                while i < graph.nodes.len()
                    invariant
                        i <= graph.nodes.len(),
                        crate::ast::strings_view(r@) == node_paths(graph.nodes@).take(i as int),
                    decreases graph.nodes.len() - i,
                {
                    let ghost before = r@;
                    r.push(graph.nodes[i].path.clone());
                    assert(crate::ast::strings_view(r@) =~= crate::ast::strings_view(before).push(graph.nodes@[i as int].path@));
                    assert(node_paths(graph.nodes@).take(i + 1) =~= node_paths(graph.nodes@).take(i as int).push(graph.nodes@[i as int].path@));
                    i += 1;
                }
                assert(node_paths(graph.nodes@).take(graph.nodes.len() as int) =~= node_paths(graph.nodes@));
                r
            } else {
                let mut r = greedy_order(&graph.nodes, &Some(e.clone()), true);
                let ghost before = r@;
                r.push(e.clone());
                assert(crate::ast::strings_view(r@).drop_last() =~= crate::ast::strings_view(before));
                r
            }
        },
    }
}


/// In the compilation order of a graph with an entry file and more than one
/// file, every file before the entry comes after each file of the graph that
/// it imports, and no file comes twice.
pub proof fn lemma_dependencies_come_first(g: DependencyGraph, r: Seq<Seq<char>>)
    requires
        g.wf(),
        g.entry_path is Some,
        g.nodes@.len() > 1,
        is_compilation_order(g.nodes@, opt_path(g.entry_path), r),
    ensures
        forall|k: int, i: int, j: int|
            0 <= k < r.len() - 1 && 0 <= i < g.nodes@.len() && g.nodes@[i].path@ == r[k]
                && 0 <= j < g.nodes@[i].imports@.len()
                && node_paths(g.nodes@).contains(g.nodes@[i].imports@[j]@)
                ==> #[trigger] r.take(k).contains(g.nodes@[i].imports@[j]@),
        r.no_duplicates(),
{
    let nodes = g.nodes@;
    let e = g.entry_path.unwrap()@;
    let d = r.drop_last();
    let paths = node_paths(nodes);
    assert forall|k: int, i: int, j: int|
        0 <= k < r.len() - 1 && 0 <= i < nodes.len() && nodes[i].path@ == r[k]
            && 0 <= j < nodes[i].imports@.len()
            && paths.contains(nodes[i].imports@[j]@)
        implies #[trigger] r.take(k).contains(nodes[i].imports@[j]@) by {
        assert(d.take(k) =~= r.take(k));
        assert(d[k] == r[k]);
        assert(greedy_step(nodes, Some(e), true, d.take(k), d[k]));
        let i0 = choose|i0: int| #[trigger] ready_at(nodes, Some(e), true, d.take(k), i0) && nodes[i0].path@ == d[k];
        assert(paths[i0] == paths[i]);
        assert(i0 == i);
        assert(ready_at(nodes, Some(e), true, d.take(k), i));
    }
    assert forall|a: int, b: int| 0 <= a < r.len() && 0 <= b < r.len() && a != b implies r[a] != r[b] by {
        let (x, y) = if a < b { (a, b) } else { (b, a) };
        assert(greedy_step(nodes, Some(e), true, d.take(y), d[y]) || y == r.len() - 1);
        if y == r.len() - 1 {
            assert(d[x] == r[x]);
            assert(greedy_step(nodes, Some(e), true, d.take(x), d[x]));
            let i0 = choose|i0: int| #[trigger] ready_at(nodes, Some(e), true, d.take(x), i0) && nodes[i0].path@ == d[x];
            assert(r[y] == e);
        } else {
            assert(d[y] == r[y] && d[x] == r[x]);
            assert(greedy_step(nodes, Some(e), true, d.take(y), d[y]));
            let i0 = choose|i0: int| #[trigger] ready_at(nodes, Some(e), true, d.take(y), i0) && nodes[i0].path@ == d[y];
            assert(d.take(y)[x] == d[x]);
        }
    }
}

} // verus!
