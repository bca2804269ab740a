//! VALIDATE checks over the linked world: unreachable locations (S3) and
//! the checks that read the symbol table's namespaces.
//!
//! VALIDATE is read-only: these functions report, they change nothing.

use vstd::prelude::*;
use crate::diagnostics::{
    appended, lemma_appended_empty, lemma_appended_trans, DiagnosticCollector, PlainDiag, Severity,
};
use crate::link::{
    key_index, lemma_key_index, location_entries, location_get, location_keys, LocationV, ExitV, exits_view, in_scope,
    keys_of, ActionV, PhaseV, RuleV, SequenceV, action_entries, action_get, action_keys, rule_contains, rule_entries,
    sequence_entries, sequence_get, sequence_keys, lemma_key_index_unique, entity_entries, entity_get, type_entries,
    type_get,
};
use crate::ast::{opt_view, ContentNode};
use crate::slugify::{slugify, spec_slugify};
use crate::ast::strings_view;
use crate::span::{Span, SpanV, span_view};
use crate::symbol_table::SymbolTable;
use crate::ast::{entries_view, EntryV, FileAst, FrontmatterValue, Scalar, ScalarV, ValueV};
use crate::text::{push_str, string_from_chars};

verus! {

broadcast use vstd::string::group_string_axioms;

// ── Unreachable locations (S3) ──

pub type Locs = Seq<(Seq<char>, LocationV)>;

/// Where an exit of location `l` leads: `d` is the resolved destination of
/// one of its exits (a location that is not declared has none).
pub open spec fn leads_to(locs: Locs, l: Seq<char>, d: Seq<char>) -> bool {
    match key_index(locs, l) {
        Some(i) => exists|x: int| 0 <= x < locs[i].1.1.len() && #[trigger] locs[i].1.1[x].1 == Some(d),
        None => false,
    }
}

/// The locations reachable from `start` in at most `n` steps.
pub open spec fn reach_within(locs: Locs, start: Seq<char>, n: nat) -> Set<Seq<char>>
    decreases n,
{
    if n == 0 {
        set![start]
    } else {
        let prev = reach_within(locs, start, (n - 1) as nat);
        prev.union(Set::new(|d: Seq<char>| exists|l: Seq<char>| prev.contains(l) && #[trigger] leads_to(locs, l, d)))
    }
}

/// `d` can be reached from `start` by following exits.
pub open spec fn reachable(locs: Locs, start: Seq<char>, d: Seq<char>) -> bool {
    exists|n: nat| #[trigger] reach_within(locs, start, n).contains(d)
}

pub open spec fn msg_unreachable(id: Seq<char>) -> Seq<char> {
    "Location '"@ + id + "' is unreachable. No path from the start location reaches it."@
}

/// The URD430 warnings for the locations of `locs` (in declaration order)
/// that cannot be reached from `start`.
pub open spec fn unreachable_reports(locs: Locs, all: Locs, start: Seq<char>) -> Seq<PlainDiag>
    decreases locs.len(),
{
    if locs.len() == 0 {
        Seq::empty()
    } else {
        let prev = unreachable_reports(locs.drop_last(), all, start);
        let e = locs.last();
        if reachable(all, start, e.0) {
            prev
        } else {
            prev.push((Severity::Warning, "URD430"@, msg_unreachable(e.0), e.1.3))
        }
    }
}

/// What the reachability check reports: nothing without a declared
/// `world.start`, else a warning for each unreachable location.
pub open spec fn reachability_reports(locs: Locs, start: Option<Seq<char>>) -> Seq<PlainDiag> {
    match start {
        Some(s) => if key_index(locs, s) is Some { unreachable_reports(locs, locs, s) } else { Seq::empty() },
        None => Seq::empty(),
    }
}

proof fn lemma_reach_monotone(locs: Locs, start: Seq<char>, m: nat, n: nat)
    requires
        m <= n,
    ensures
        reach_within(locs, start, m).subset_of(reach_within(locs, start, n)),
    decreases n,
{
    if m < n {
        lemma_reach_monotone(locs, start, m, (n - 1) as nat);
    }
}

/// One more step from a reachable location reaches its destinations.
proof fn lemma_reach_step(locs: Locs, start: Seq<char>, l: Seq<char>, d: Seq<char>)
    requires
        reachable(locs, start, l),
        leads_to(locs, l, d),
    ensures
        reachable(locs, start, d),
{
    let n = choose|n: nat| #[trigger] reach_within(locs, start, n).contains(l);
    let prev = reach_within(locs, start, n);
    assert(reach_within(locs, start, n + 1) == prev.union(Set::new(|d: Seq<char>| exists|l: Seq<char>| prev.contains(l) && #[trigger] leads_to(locs, l, d))));
    assert(reach_within(locs, start, n + 1).contains(d));
}

/// A set holding `start` and closed under exits holds every reachable
/// location.
proof fn lemma_closed_holds_reachable(locs: Locs, start: Seq<char>, v: Set<Seq<char>>, n: nat)
    requires
        v.contains(start),
        forall|l: Seq<char>, d: Seq<char>| v.contains(l) && #[trigger] leads_to(locs, l, d) ==> v.contains(d),
    ensures
        reach_within(locs, start, n).subset_of(v),
    decreases n,
{
    if n > 0 {
        lemma_closed_holds_reachable(locs, start, v, (n - 1) as nat);
    }
}


/// The resolved destinations of a list of exits, in order.
pub open spec fn exit_dests(xs: Seq<ExitV>) -> Seq<Seq<char>>
    decreases xs.len(),
{
    if xs.len() == 0 {
        Seq::empty()
    } else {
        let p = exit_dests(xs.drop_last());
        match xs.last().1 {
            Some(d) => p.push(d),
            None => p,
        }
    }
}

/// Every resolved destination of every location.
pub open spec fn all_dests(locs: Locs) -> Seq<Seq<char>>
    decreases locs.len(),
{
    if locs.len() == 0 {
        Seq::empty()
    } else {
        all_dests(locs.drop_last()) + exit_dests(locs.last().1.1)
    }
}

proof fn lemma_exit_dests_contains(xs: Seq<ExitV>, x: int, d: Seq<char>)
    requires
        0 <= x < xs.len(),
        xs[x].1 == Some(d),
    ensures
        exit_dests(xs).contains(d),
    decreases xs.len(),
{
    if x < xs.len() - 1 {
        lemma_exit_dests_contains(xs.drop_last(), x, d);
        let p = exit_dests(xs.drop_last());
        let k = choose|k: int| 0 <= k < p.len() && p[k] == d;
        match xs.last().1 {
            Some(e) => { assert(p.push(e)[k] == d); },
            None => {},
        }
    } else {
        let p = exit_dests(xs.drop_last());
        assert(p.push(d)[p.len() as int] == d);
    }
}

proof fn lemma_all_dests_contains(locs: Locs, i: int, x: int, d: Seq<char>)
    requires
        0 <= i < locs.len(),
        0 <= x < locs[i].1.1.len(),
        locs[i].1.1[x].1 == Some(d),
    ensures
        all_dests(locs).contains(d),
    decreases locs.len(),
{
    let p = all_dests(locs.drop_last());
    let q = exit_dests(locs.last().1.1);
    if i < locs.len() - 1 {
        lemma_all_dests_contains(locs.drop_last(), i, x, d);
        let k = choose|k: int| 0 <= k < p.len() && p[k] == d;
        assert((p + q)[k] == d);
    } else {
        lemma_exit_dests_contains(locs.last().1.1, x, d);
        let k = choose|k: int| 0 <= k < q.len() && q[k] == d;
        assert((p + q)[p.len() + k] == d);
    }
}

/// The locations `start` can reach: the start itself and every resolved
/// destination, found breadth first.
fn reachable_set(locations: &indexmap::IndexMap<String, crate::symbol_table::LocationSymbol>, start: &String) -> (r: Vec<String>)
    ensures
        forall|d: Seq<char>| strings_view(r@).contains(d) <==> reachable(location_entries(*locations), start@, d),
{
    let ghost locs = location_entries(*locations);
    let ghost cands = seq![start@] + all_dests(locs);
    let mut visited: Vec<String> = Vec::new();
    visited.push(start.clone());
    proof {
        assert(strings_view(visited@) =~= seq![start@]);
        assert(reach_within(locs, start@, 0).contains(start@));
        assert(cands[0] == start@);
    }
    let mut h: usize = 0;
    while h < visited.len()
        invariant
            locs == location_entries(*locations),
            cands == seq![start@] + all_dests(locs),
            h <= visited@.len(),
            strings_view(visited@).len() >= 1,
            strings_view(visited@)[0] == start@,
            strings_view(visited@).no_duplicates(),
            strings_view(visited@).len() <= cands.len(),
            forall|j: int| 0 <= j < visited@.len() ==> reachable(locs, start@, #[trigger] strings_view(visited@)[j]),
            forall|j: int| 0 <= j < visited@.len() ==> cands.contains(#[trigger] strings_view(visited@)[j]),
            forall|j: int, d: Seq<char>| 0 <= j < h && #[trigger] leads_to(locs, strings_view(visited@)[j], d)
                ==> strings_view(visited@).contains(d),
        decreases cands.len() - visited@.len(), visited@.len() - h,
    {
        let current = visited[h].clone();
        let ghost cur = current@;
        assert(cur == strings_view(visited@)[h as int]);
        let ghost len_before = visited@.len();
        proof { lemma_key_index(locs, cur); }
        match location_get(locations, current.as_str()) {
            Some(loc) => {
                let ghost i = key_index(locs, cur).unwrap();
                let ghost xs = exits_view(loc.exits@);
                assert(xs == locs[i].1.1);
                let mut x: usize = 0;
                while x < loc.exits.len()
                    invariant
                        locs == location_entries(*locations),
                        cands == seq![start@] + all_dests(locs),
                        0 <= i < locs.len(),
                        xs == locs[i].1.1,
                        xs == exits_view(loc.exits@),
                        key_index(locs, cur) == Some(i),
                        cur == strings_view(visited@)[h as int],
                        h < visited@.len(),
                        visited@.len() >= len_before,
                        x <= loc.exits@.len(),
                        strings_view(visited@).len() >= 1,
                        strings_view(visited@)[0] == start@,
                        strings_view(visited@).no_duplicates(),
                        strings_view(visited@).len() <= cands.len(),
                        reachable(locs, start@, cur),
                        forall|j: int| 0 <= j < visited@.len() ==> reachable(locs, start@, #[trigger] strings_view(visited@)[j]),
                        forall|j: int| 0 <= j < visited@.len() ==> cands.contains(#[trigger] strings_view(visited@)[j]),
                        forall|j: int, d: Seq<char>| 0 <= j < h && #[trigger] leads_to(locs, strings_view(visited@)[j], d)
                            ==> strings_view(visited@).contains(d),
                        forall|y: int, d: Seq<char>| 0 <= y < x && xs[y].1 == Some(d) ==> strings_view(visited@).contains(d),
                    decreases loc.exits@.len() - x,
                {
                    assert(xs[x as int] == crate::link::exit_view(loc.exits@[x as int]));
                    match &loc.exits[x].resolved_destination {
                        Some(dest) => {
                            if !in_scope(&visited, dest.as_str()) {
                                let ghost before = strings_view(visited@);
                                proof {
                                    assert(leads_to(locs, cur, dest@));
                                    lemma_reach_step(locs, start@, cur, dest@);
                                    lemma_all_dests_contains(locs, i, x as int, dest@);
                                    let k = choose|k: int| 0 <= k < all_dests(locs).len() && all_dests(locs)[k] == dest@;
                                    assert(cands[k + 1] == dest@);
                                    // Room for one more: the visited names are distinct candidates.
                                    let nv = before.push(dest@);
                                    assert(nv.no_duplicates());
                                    nv.unique_seq_to_set();
                                    assert(nv.to_set().subset_of(cands.to_set())) by {
                                        assert forall|e: Seq<char>| nv.to_set().contains(e) implies cands.to_set().contains(e) by {
                                            let j = choose|j: int| 0 <= j < nv.len() && nv[j] == e;
                                            if j < before.len() {
                                                assert(cands.contains(before[j]));
                                            }
                                        }
                                    }
                                    vstd::seq_lib::seq_to_set_is_finite(cands);
                                    vstd::set_lib::lemma_len_subset(nv.to_set(), cands.to_set());
                                    cands.lemma_cardinality_of_set();
                                }
                                visited.push(dest.clone());
                                proof {
                                    let now = strings_view(visited@);
                                    assert(now =~= before.push(dest@));
                                    assert(now[before.len() as int] == dest@);
                                    assert forall|e: Seq<char>| before.contains(e) implies now.contains(e) by {
                                        let k = choose|k: int| 0 <= k < before.len() && before[k] == e;
                                        assert(now[k] == e);
                                    }
                                    assert forall|j: int, d: Seq<char>| 0 <= j < h && #[trigger] leads_to(locs, now[j], d)
                                        implies now.contains(d) by {
                                        assert(now[j] == before[j]);
                                        assert(before.contains(d));
                                    }
                                }
                            }
                        },
                        None => {},
                    }
                    x += 1;
                }
                proof {
                    assert forall|d: Seq<char>| #[trigger] leads_to(locs, cur, d) implies strings_view(visited@).contains(d) by {
                        let y = choose|y: int| 0 <= y < locs[i].1.1.len() && #[trigger] locs[i].1.1[y].1 == Some(d);
                    }
                }
            },
            None => {
                proof {
                    assert forall|d: Seq<char>| #[trigger] leads_to(locs, cur, d) implies strings_view(visited@).contains(d) by {}
                }
            },
        }
        h += 1;
    }
    proof {
        let v = strings_view(visited@).to_set();
        assert forall|l: Seq<char>, d: Seq<char>| v.contains(l) && #[trigger] leads_to(locs, l, d) implies v.contains(d) by {
            let j = choose|j: int| 0 <= j < strings_view(visited@).len() && strings_view(visited@)[j] == l;
        }
        assert forall|d: Seq<char>| reachable(locs, start@, d) implies strings_view(visited@).contains(d) by {
            let n = choose|n: nat| #[trigger] reach_within(locs, start@, n).contains(d);
            lemma_closed_holds_reachable(locs, start@, v, n);
            assert(v.contains(d));
        }
        assert forall|d: Seq<char>| strings_view(visited@).contains(d) implies reachable(locs, start@, d) by {
            let j = choose|j: int| 0 <= j < strings_view(visited@).len() && strings_view(visited@)[j] == d;
        }
    }
    visited
}


fn cat3(a: &str, b: &str, c: &str) -> (r: String)
    ensures
        r@ == a@ + b@ + c@,
{
    let mut v: Vec<char> = Vec::new();
    push_str(&mut v, a);
    push_str(&mut v, b);
    push_str(&mut v, c);
    assert(v@ =~= a@ + b@ + c@);
    string_from_chars(v)
}

/// Report every location that no path from `world.start` reaches
/// (URD430 warnings, in declaration order). Without a declared start
/// location there is nothing to check.
pub fn validate_location_reachability(symbol_table: &SymbolTable, diagnostics: &mut DiagnosticCollector)
    ensures
        appended(final(diagnostics)@, old(diagnostics)@,
            reachability_reports(location_entries(symbol_table.locations), opt_view(symbol_table.world_start))),
{
    let ghost locs = location_entries(symbol_table.locations);
    proof { lemma_appended_empty(diagnostics@); }
    let start = match &symbol_table.world_start {
        Some(s) => s,
        None => { return; },
    };
    proof { lemma_key_index(locs, start@); }
    if location_get(&symbol_table.locations, start.as_str()).is_none() {
        return;
    }
    let visited = reachable_set(&symbol_table.locations, start);
    let keys = location_keys(&symbol_table.locations);
    let ghost d0 = diagnostics@;
    proof {
        assert(strings_view(keys@).len() == keys@.len());
        assert(keys_of(locs).len() == locs.len());
    }
    let mut i: usize = 0;
    while i < keys.len()
        invariant
            keys@.len() == locs.len(),
            locs == location_entries(symbol_table.locations),
            strings_view(keys@) == keys_of(locs),
            keys_of(locs).no_duplicates(),
            forall|d: Seq<char>| strings_view(visited@).contains(d) <==> reachable(locs, start@, d),
            i <= keys@.len(),
            appended(diagnostics@, d0, unreachable_reports(locs.take(i as int), locs, start@)),
        decreases keys@.len() - i,
    {
        let ghost k = keys@[i as int]@;
        proof {
            assert(strings_view(keys@)[i as int] == k);
            assert(keys_of(locs)[i as int] == locs[i as int].0);
            assert(locs.take(i + 1).drop_last() =~= locs.take(i as int));
            assert(locs.take(i + 1).last() == locs[i as int]);
        }
        if !in_scope(&visited, keys[i].as_str()) {
            proof { crate::link::lemma_key_index_unique(locs, i as int); }
            match location_get(&symbol_table.locations, keys[i].as_str()) {
                Some(loc) => {
                    let ghost before = diagnostics@;
                    let message = cat3("Location '", keys[i].as_str(), "' is unreachable. No path from the start location reaches it.");
                    diagnostics.warning("URD430", message, loc.declared_in.clone());
                    proof {
                        let e = (Severity::Warning, "URD430"@, msg_unreachable(k), locs[i as int].1.3);
                        crate::content::lemma_append_one(before, diagnostics@, e);
                        lemma_appended_trans(d0, before, diagnostics@, unreachable_reports(locs.take(i as int), locs, start@), seq![e]);
                    }
                },
                None => {
                    proof { lemma_key_index(locs, k); }
                },
            }
        }
        i += 1;
    }
    assert(locs.take(keys@.len() as int) =~= locs);
}


/// The start location is always reachable, so it is never reported.
pub proof fn lemma_start_reachable(locs: Locs, start: Seq<char>)
    ensures
        reachable(locs, start, start),
{
    assert(reach_within(locs, start, 0).contains(start));
}

// ── Section–exit shadowing (S8) ──

pub open spec fn msg_section_shadows_exit(name: Seq<char>, loc: Seq<char>) -> Seq<char> {
    "Section '"@ + name + "' in location '"@ + loc + "' shares a name with exit '"@ + name + "'. Jumps to '"@ + name
        + "' will target the section, not the exit. Use -> exit:"@ + name + " to target the exit explicitly."@
}

/// The current location after node `n`: a heading whose slug names a
/// declared location makes it current; any other heading clears it.
pub open spec fn shadow_cur(locs: Locs, cur: Option<Seq<char>>, n: ContentNode) -> Option<Seq<char>> {
    match n {
        ContentNode::LocationHeading(h) => {
            let slug = spec_slugify(h.display_name@);
            if key_index(locs, slug) is Some { Some(slug) } else { None }
        },
        _ => cur,
    }
}

/// What node `n` reports: a section label named like an exit of the
/// current location.
pub open spec fn shadow_report(locs: Locs, cur: Option<Seq<char>>, n: ContentNode) -> Seq<PlainDiag> {
    match n {
        ContentNode::SectionLabel(l) => match cur {
            Some(c) => match key_index(locs, c) {
                Some(i) => if key_index(locs[i].1.1, l.name@) is Some {
                    seq![(Severity::Warning, "URD434"@, msg_section_shadows_exit(l.name@, c), span_view(l.span))]
                } else {
                    Seq::empty()
                },
                None => Seq::empty(),
            },
            None => Seq::empty(),
        },
        _ => Seq::empty(),
    }
}

/// The current location after the nodes `v`, starting outside any.
pub open spec fn shadow_state(locs: Locs, v: Seq<ContentNode>) -> Option<Seq<char>>
    decreases v.len(),
{
    if v.len() == 0 { None } else { shadow_cur(locs, shadow_state(locs, v.drop_last()), v.last()) }
}

/// What the nodes `v` of one file report, in order.
pub open spec fn shadow_reports(locs: Locs, v: Seq<ContentNode>) -> Seq<PlainDiag>
    decreases v.len(),
{
    if v.len() == 0 {
        Seq::empty()
    } else {
        shadow_reports(locs, v.drop_last()) + shadow_report(locs, shadow_state(locs, v.drop_last()), v.last())
    }
}

fn exit_named(exits: &Vec<crate::symbol_table::ExitSymbol>, name: &str) -> (b: bool)
    ensures
        b == (key_index(exits_view(exits@), name@) is Some),
{
    let ghost xs = exits_view(exits@);
    proof { lemma_key_index(xs, name@); }
    let mut i: usize = 0;
    while i < exits.len()
        invariant
            xs == exits_view(exits@),
            i <= exits@.len(),
            forall|j: int| 0 <= j < i ==> (#[trigger] xs[j]).0 != name@,
        decreases exits@.len() - i,
    {
        assert(xs[i as int] == crate::link::exit_view(exits@[i as int]));
        if crate::text::str_equals(exits[i].direction.as_str(), name) {
            proof { lemma_key_index(xs, name@); }
            return true;
        }
        i += 1;
    }
    false
}

/// Report section labels that share a name with an exit of the location
/// they stand in (URD434 warnings), for one file's content.
pub fn validate_section_exit_shadowing(content: &Vec<ContentNode>, symbol_table: &SymbolTable, diagnostics: &mut DiagnosticCollector)
    ensures
        appended(final(diagnostics)@, old(diagnostics)@, shadow_reports(location_entries(symbol_table.locations), content@)),
{
    let ghost locs = location_entries(symbol_table.locations);
    let ghost d0 = diagnostics@;
    proof { lemma_appended_empty(d0); }
    let mut cur: Option<String> = None;
    let mut i: usize = 0;
    while i < content.len()
        invariant
            locs == location_entries(symbol_table.locations),
            i <= content@.len(),
            opt_view(cur) == shadow_state(locs, content@.take(i as int)),
            appended(diagnostics@, d0, shadow_reports(locs, content@.take(i as int))),
        decreases content@.len() - i,
    {
        proof {
            assert(content@.take(i + 1).drop_last() =~= content@.take(i as int));
            assert(content@.take(i + 1).last() == content@[i as int]);
        }
        let ghost before = diagnostics@;
        match &content[i] {
            ContentNode::LocationHeading(lh) => {
                let slug = slugify(lh.display_name.as_str());
                proof { lemma_key_index(locs, slug@); }
                if location_get(&symbol_table.locations, slug.as_str()).is_some() {
                    cur = Some(slug);
                } else {
                    cur = None;
                }
                proof { assert(shadow_report(locs, shadow_state(locs, content@.take(i as int)), content@[i as int]) =~= Seq::<PlainDiag>::empty()); }
            },
            ContentNode::SectionLabel(sl) => {
                match &cur {
                    Some(loc_id) => {
                        proof { lemma_key_index(locs, loc_id@); }
                        match location_get(&symbol_table.locations, loc_id.as_str()) {
                            Some(loc) => {
                                if exit_named(&loc.exits, sl.name.as_str()) {
                                    let n = sl.name.as_str();
                                    let mut m: Vec<char> = Vec::new();
                                    push_str(&mut m, "Section '");
                                    push_str(&mut m, n);
                                    push_str(&mut m, "' in location '");
                                    push_str(&mut m, loc_id.as_str());
                                    push_str(&mut m, "' shares a name with exit '");
                                    push_str(&mut m, n);
                                    push_str(&mut m, "'. Jumps to '");
                                    push_str(&mut m, n);
                                    push_str(&mut m, "' will target the section, not the exit. Use -> exit:");
                                    push_str(&mut m, n);
                                    push_str(&mut m, " to target the exit explicitly.");
                                    assert(m@ =~= msg_section_shadows_exit(sl.name@, loc_id@));
                                    diagnostics.warning("URD434", string_from_chars(m), sl.span.clone());
                                    proof {
                                        let e = (Severity::Warning, "URD434"@, msg_section_shadows_exit(sl.name@, loc_id@), span_view(sl.span));
                                        crate::content::lemma_append_one(before, diagnostics@, e);
                                    }
                                } else {
                                    proof { crate::diagnostics::lemma_appended_empty(before); }
                                }
                            },
                            None => { proof { crate::diagnostics::lemma_appended_empty(before); } },
                        }
                    },
                    None => { proof { crate::diagnostics::lemma_appended_empty(before); } },
                }
            },
            _ => { proof { crate::diagnostics::lemma_appended_empty(before); } },
        }
        proof {
            let prev = shadow_reports(locs, content@.take(i as int));
            let r = shadow_report(locs, shadow_state(locs, content@.take(i as int)), content@[i as int]);
            if r.len() > 0 {
                lemma_appended_trans(d0, before, diagnostics@, prev, r);
            } else {
                assert(diagnostics@ == before) by {
                    if content@[i as int] is SectionLabel {
                        assert(diagnostics@.take(before.len() as int) == before);
                    }
                }
                assert(prev + r =~= prev);
            }
        }
        i += 1;
    }
    assert(content@.take(content@.len() as int) =~= content@);
}


// ── Actions (step 6) ──

pub open spec fn msg_action_both(id: Seq<char>) -> Seq<char> {
    "Action '"@ + id + "' declares both 'target' and 'target_type'. Declare one or neither."@
}

/// URD406 for each action (in declaration order) that declares both a
/// target and a target type.
pub open spec fn action_reports(acts: Seq<(Seq<char>, ActionV)>) -> Seq<PlainDiag>
    decreases acts.len(),
{
    if acts.len() == 0 {
        Seq::empty()
    } else {
        let a = acts.last();
        action_reports(acts.drop_last()) + if a.1.1 is Some && a.1.2 is Some {
            seq![(Severity::Error, "URD406"@, msg_action_both(a.0), a.1.3)]
        } else {
            Seq::empty()
        }
    }
}

/// Report actions that declare both `target` and `target_type` (URD406).
pub fn validate_actions(symbol_table: &SymbolTable, diagnostics: &mut DiagnosticCollector)
    ensures
        appended(final(diagnostics)@, old(diagnostics)@, action_reports(action_entries(symbol_table.actions))),
{
    let ghost acts = action_entries(symbol_table.actions);
    let keys = action_keys(&symbol_table.actions);
    let ghost d0 = diagnostics@;
    proof {
        lemma_appended_empty(d0);
        assert(strings_view(keys@).len() == keys@.len());
        assert(keys_of(acts).len() == acts.len());
    }
    let mut i: usize = 0;
    while i < keys.len()
        invariant
            keys@.len() == acts.len(),
            acts == action_entries(symbol_table.actions),
            strings_view(keys@) == keys_of(acts),
            keys_of(acts).no_duplicates(),
            i <= keys@.len(),
            appended(diagnostics@, d0, action_reports(acts.take(i as int))),
        decreases keys@.len() - i,
    {
        proof {
            assert(strings_view(keys@)[i as int] == keys@[i as int]@);
            assert(keys_of(acts)[i as int] == acts[i as int].0);
            assert(acts.take(i + 1).drop_last() =~= acts.take(i as int));
            assert(acts.take(i + 1).last() == acts[i as int]);
            lemma_key_index_unique(acts, i as int);
        }
        let ghost before = diagnostics@;
        match action_get(&symbol_table.actions, keys[i].as_str()) {
            Some(a) => {
                if a.target.is_some() && a.target_type.is_some() {
                    let message = cat3("Action '", keys[i].as_str(), "' declares both 'target' and 'target_type'. Declare one or neither.");
                    diagnostics.error("URD406", message, a.declared_in.clone());
                    proof {
                        let e = (Severity::Error, "URD406"@, msg_action_both(acts[i as int].0), acts[i as int].1.3);
                        crate::content::lemma_append_one(before, diagnostics@, e);
                        lemma_appended_trans(d0, before, diagnostics@, action_reports(acts.take(i as int)), seq![e]);
                    }
                } else {
                    proof { assert(action_reports(acts.take(i as int)) + Seq::<PlainDiag>::empty() =~= action_reports(acts.take(i as int))); }
                }
            },
            None => {},
        }
        i += 1;
    }
    assert(acts.take(keys@.len() as int) =~= acts);
}

// ── Sequences and phases (step 7) ──

/// The advance modes a phase may declare.
pub open spec fn valid_advance(a: Seq<char>) -> bool {
    a == "on_action"@ || a == "on_rule"@ || a == "on_condition"@ || a == "end"@ || a == "auto"@ || a == "manual"@
}

pub open spec fn msg_unknown_action(phase: Seq<char>, sequence: Seq<char>, action: Seq<char>) -> Seq<char> {
    "Phase '"@ + phase + "' in sequence '"@ + sequence + "' references unknown action '"@ + action + "'."@
}

pub open spec fn msg_unknown_rule(phase: Seq<char>, sequence: Seq<char>, rule: Seq<char>) -> Seq<char> {
    "Phase '"@ + phase + "' in sequence '"@ + sequence + "' references unknown rule '"@ + rule + "'."@
}

pub open spec fn msg_invalid_advance(advance: Seq<char>, phase: Seq<char>) -> Seq<char> {
    "Invalid advance mode '"@ + advance + "' in phase '"@ + phase + "'. Valid modes: on_action, on_rule, on_condition, end."@
}

pub open spec fn msg_auto_with_actions(phase: Seq<char>) -> Seq<char> {
    "Phase '"@ + phase + "' is auto-advancing but declares player actions. The actions will not be available."@
}

pub open spec fn msg_no_phases(sequence: Seq<char>) -> Seq<char> {
    "Sequence '"@ + sequence + "' declares no phases."@
}

/// URD407 for each action of `list` that is not declared.
pub open spec fn unknown_actions(acts: Seq<(Seq<char>, ActionV)>, q: Seq<char>, p: PhaseV, list: Seq<Seq<char>>) -> Seq<PlainDiag>
    decreases list.len(),
{
    if list.len() == 0 {
        Seq::empty()
    } else {
        let a = list.last();
        unknown_actions(acts, q, p, list.drop_last()) + if key_index(acts, a) is None {
            seq![(Severity::Error, "URD407"@, msg_unknown_action(p.0, q, a), p.5)]
        } else {
            Seq::empty()
        }
    }
}

/// What one phase of sequence `q` reports: unknown actions and rule, an
/// invalid advance mode, an auto phase with player actions.
pub open spec fn phase_reports(acts: Seq<(Seq<char>, ActionV)>, rules: Seq<(Seq<char>, RuleV)>, q: Seq<char>, p: PhaseV) -> Seq<PlainDiag> {
    (match p.2 {
        Some(a) => if key_index(acts, a) is None { seq![(Severity::Error, "URD407"@, msg_unknown_action(p.0, q, a), p.5)] } else { Seq::empty() },
        None => Seq::empty(),
    }) + (match p.3 {
        Some(list) => unknown_actions(acts, q, p, list),
        None => Seq::empty(),
    }) + (match p.4 {
        Some(r) => if key_index(rules, r) is None { seq![(Severity::Error, "URD408"@, msg_unknown_rule(p.0, q, r), p.5)] } else { Seq::empty() },
        None => Seq::empty(),
    }) + (if !valid_advance(p.1) {
        seq![(Severity::Error, "URD409"@, msg_invalid_advance(p.1, p.0), p.5)]
    } else {
        Seq::empty()
    }) + (if p.1 == "auto"@ && (p.2 is Some || (p.3 is Some && p.3.unwrap().len() > 0)) {
        seq![(Severity::Warning, "URD427"@, msg_auto_with_actions(p.0), p.5)]
    } else {
        Seq::empty()
    })
}

pub open spec fn phases_reports(acts: Seq<(Seq<char>, ActionV)>, rules: Seq<(Seq<char>, RuleV)>, q: Seq<char>, ps: Seq<PhaseV>) -> Seq<PlainDiag>
    decreases ps.len(),
{
    if ps.len() == 0 {
        Seq::empty()
    } else {
        phases_reports(acts, rules, q, ps.drop_last()) + phase_reports(acts, rules, q, ps.last())
    }
}

/// What the sequences report, in declaration order: an empty sequence,
/// then each of its phases.
pub open spec fn sequence_reports(acts: Seq<(Seq<char>, ActionV)>, rules: Seq<(Seq<char>, RuleV)>, qs: Seq<(Seq<char>, SequenceV)>) -> Seq<PlainDiag>
    decreases qs.len(),
{
    if qs.len() == 0 {
        Seq::empty()
    } else {
        let q = qs.last();
        sequence_reports(acts, rules, qs.drop_last())
            + (if q.1.1.len() == 0 { seq![(Severity::Error, "URD428"@, msg_no_phases(q.0), q.1.2)] } else { Seq::empty() })
            + phases_reports(acts, rules, q.0, q.1.1)
    }
}

pub(crate) fn report(code: &str, warning: bool, message: String, span: &Span, diagnostics: &mut DiagnosticCollector,
    Ghost(e): Ghost<PlainDiag>)
    requires
        e == (if warning { Severity::Warning } else { Severity::Error }, code@, message@, span_view(*span)),
    ensures
        appended(final(diagnostics)@, old(diagnostics)@, seq![e]),
{
    let ghost before = diagnostics@;
    if warning {
        diagnostics.warning(code, message, span.clone());
    } else {
        diagnostics.error(code, message, span.clone());
    }
    proof { crate::content::lemma_append_one(before, diagnostics@, e); }
}

fn phase_message(a: &str, phase: &str, b: &str, q: &str, c: &str, x: &str, d: &str) -> (r: String)
    ensures
        r@ == a@ + phase@ + b@ + q@ + c@ + x@ + d@,
{
    let mut v: Vec<char> = Vec::new();
    push_str(&mut v, a);
    push_str(&mut v, phase);
    push_str(&mut v, b);
    push_str(&mut v, q);
    push_str(&mut v, c);
    push_str(&mut v, x);
    push_str(&mut v, d);
    assert(v@ =~= a@ + phase@ + b@ + q@ + c@ + x@ + d@);
    string_from_chars(v)
}

fn check_phase(phase: &crate::symbol_table::PhaseSymbol, q: &str, symbol_table: &SymbolTable, diagnostics: &mut DiagnosticCollector)
    ensures
        appended(final(diagnostics)@, old(diagnostics)@, phase_reports(action_entries(symbol_table.actions),
            rule_entries(symbol_table.rules), q@, crate::link::phase_view(*phase))),
{
    let ghost acts = action_entries(symbol_table.actions);
    let ghost rules = rule_entries(symbol_table.rules);
    let ghost p = crate::link::phase_view(*phase);
    let ghost d0 = diagnostics@;
    let pid = phase.id.as_str();
    let span = &phase.declared_in;
    // Unknown single action.
    let ghost r1: Seq<PlainDiag> = match p.2 {
        Some(a) => if key_index(acts, a) is None { seq![(Severity::Error, "URD407"@, msg_unknown_action(p.0, q@, a), p.5)] } else { Seq::empty() },
        None => Seq::empty(),
    };
    proof { lemma_appended_empty(d0); }
    match &phase.action {
        Some(a) => {
            if action_get(&symbol_table.actions, a.as_str()).is_none() {
                let m = phase_message("Phase '", pid, "' in sequence '", q, "' references unknown action '", a.as_str(), "'.");
                report("URD407", false, m, span, diagnostics, Ghost(r1[0]));
            }
        },
        None => {},
    }
    let ghost d1 = diagnostics@;
    // Unknown actions of the list.
    let ghost r2: Seq<PlainDiag> = match p.3 {
        Some(list) => unknown_actions(acts, q@, p, list),
        None => Seq::empty(),
    };
    match &phase.actions {
        Some(list) => {
            let ghost lv = strings_view(list@);
            let mut k: usize = 0;
            proof { lemma_appended_empty(d1); assert(lv.take(0) =~= Seq::<Seq<char>>::empty()); }
            while k < list.len()
                invariant
                    acts == action_entries(symbol_table.actions),
                    lv == strings_view(list@),
                    p == crate::link::phase_view(*phase),
                    pid@ == p.0,
                    span_view(*span) == p.5,
                    k <= list@.len(),
                    appended(diagnostics@, d1, unknown_actions(acts, q@, p, lv.take(k as int))),
                decreases list@.len() - k,
            {
                proof {
                    assert(lv.take(k + 1).drop_last() =~= lv.take(k as int));
                    assert(lv.take(k + 1).last() == list@[k as int]@);
                }
                let ghost before = diagnostics@;
                if action_get(&symbol_table.actions, list[k].as_str()).is_none() {
                    let m = phase_message("Phase '", pid, "' in sequence '", q, "' references unknown action '", list[k].as_str(), "'.");
                    let ghost e = (Severity::Error, "URD407"@, msg_unknown_action(p.0, q@, list@[k as int]@), p.5);
                    report("URD407", false, m, span, diagnostics, Ghost(e));
                    proof { lemma_appended_trans(d1, before, diagnostics@, unknown_actions(acts, q@, p, lv.take(k as int)), seq![e]); }
                } else {
                    proof { assert(unknown_actions(acts, q@, p, lv.take(k as int)) + Seq::<PlainDiag>::empty() =~= unknown_actions(acts, q@, p, lv.take(k as int))); }
                }
                k += 1;
            }
            assert(lv.take(list@.len() as int) =~= lv);
        },
        None => { proof { lemma_appended_empty(d1); } },
    }
    proof { lemma_appended_trans(d0, d1, diagnostics@, r1, r2); }
    let ghost d2 = diagnostics@;
    // Unknown rule.
    let ghost r3: Seq<PlainDiag> = match p.4 {
        Some(r) => if key_index(rules, r) is None { seq![(Severity::Error, "URD408"@, msg_unknown_rule(p.0, q@, r), p.5)] } else { Seq::empty() },
        None => Seq::empty(),
    };
    proof { lemma_appended_empty(d2); }
    match &phase.rule {
        Some(r) => {
            if !rule_contains(&symbol_table.rules, r.as_str()) {
                let m = phase_message("Phase '", pid, "' in sequence '", q, "' references unknown rule '", r.as_str(), "'.");
                report("URD408", false, m, span, diagnostics, Ghost(r3[0]));
            }
        },
        None => {},
    }
    proof { lemma_appended_trans(d0, d2, diagnostics@, r1 + r2, r3); }
    let ghost d3 = diagnostics@;
    // Advance mode.
    proof {
        reveal_strlit("on_action");
        reveal_strlit("on_rule");
        reveal_strlit("on_condition");
        reveal_strlit("end");
        reveal_strlit("auto");
        reveal_strlit("manual");
        lemma_appended_empty(d3);
    }
    let adv = phase.advance.as_str();
    let eq = |lit: &str| -> (b: bool)
        ensures b == (adv@ == lit@)
    { crate::text::str_equals(adv, lit) };
    let valid = eq("on_action") || eq("on_rule") || eq("on_condition") || eq("end") || eq("auto") || eq("manual");
    let ghost r4: Seq<PlainDiag> = if !valid_advance(p.1) {
        seq![(Severity::Error, "URD409"@, msg_invalid_advance(p.1, p.0), p.5)]
    } else {
        Seq::empty()
    };
    if !valid {
        let m = cat5("Invalid advance mode '", adv, "' in phase '", pid, "'. Valid modes: on_action, on_rule, on_condition, end.");
        report("URD409", false, m, span, diagnostics, Ghost(r4[0]));
    }
    proof { lemma_appended_trans(d0, d3, diagnostics@, r1 + r2 + r3, r4); }
    let ghost d4 = diagnostics@;
    // Auto phase with player actions.
    let ghost r5: Seq<PlainDiag> = if p.1 == "auto"@ && (p.2 is Some || (p.3 is Some && p.3.unwrap().len() > 0)) {
        seq![(Severity::Warning, "URD427"@, msg_auto_with_actions(p.0), p.5)]
    } else {
        Seq::empty()
    };
    proof { lemma_appended_empty(d4); }
    if eq("auto") {
        let has_actions = phase.action.is_some() || match &phase.actions {
            Some(a) => a.len() > 0,
            None => false,
        };
        if has_actions {
            let m = cat3("Phase '", pid, "' is auto-advancing but declares player actions. The actions will not be available.");
            report("URD427", true, m, span, diagnostics, Ghost(r5[0]));
        }
    }
    proof {
        lemma_appended_trans(d0, d4, diagnostics@, r1 + r2 + r3 + r4, r5);
        assert(r1 + r2 + r3 + r4 + r5 =~= phase_reports(acts, rules, q@, p));
    }
}

fn cat5(a: &str, b: &str, c: &str, d: &str, e: &str) -> (r: String)
    ensures
        r@ == a@ + b@ + c@ + d@ + e@,
{
    let mut v: Vec<char> = Vec::new();
    push_str(&mut v, a);
    push_str(&mut v, b);
    push_str(&mut v, c);
    push_str(&mut v, d);
    push_str(&mut v, e);
    assert(v@ =~= a@ + b@ + c@ + d@ + e@);
    string_from_chars(v)
}

/// Validate sequences and their phases: a sequence without phases
/// (URD428), phases referring to undeclared actions (URD407) or rules
/// (URD408), invalid advance modes (URD409), and auto-advancing phases
/// that declare player actions (URD427 warning).
pub fn validate_sequences(symbol_table: &SymbolTable, diagnostics: &mut DiagnosticCollector)
    ensures
        appended(final(diagnostics)@, old(diagnostics)@, sequence_reports(action_entries(symbol_table.actions),
            rule_entries(symbol_table.rules), sequence_entries(symbol_table.sequences))),
{
    let ghost acts = action_entries(symbol_table.actions);
    let ghost rules = rule_entries(symbol_table.rules);
    let ghost qs = sequence_entries(symbol_table.sequences);
    let keys = sequence_keys(&symbol_table.sequences);
    let ghost d0 = diagnostics@;
    proof {
        lemma_appended_empty(d0);
        assert(strings_view(keys@).len() == keys@.len());
        assert(keys_of(qs).len() == qs.len());
    }
    let mut i: usize = 0;
    while i < keys.len()
        invariant
            keys@.len() == qs.len(),
            acts == action_entries(symbol_table.actions),
            rules == rule_entries(symbol_table.rules),
            qs == sequence_entries(symbol_table.sequences),
            strings_view(keys@) == keys_of(qs),
            keys_of(qs).no_duplicates(),
            i <= keys@.len(),
            appended(diagnostics@, d0, sequence_reports(acts, rules, qs.take(i as int))),
        decreases keys@.len() - i,
    {
        proof {
            assert(strings_view(keys@)[i as int] == keys@[i as int]@);
            assert(keys_of(qs)[i as int] == qs[i as int].0);
            assert(qs.take(i + 1).drop_last() =~= qs.take(i as int));
            assert(qs.take(i + 1).last() == qs[i as int]);
            lemma_key_index_unique(qs, i as int);
        }
        let ghost before = diagnostics@;
        let qid = keys[i].as_str();
        match sequence_get(&symbol_table.sequences, qid) {
            Some(q) => {
                let ghost qv = qs[i as int].1;
                let ghost e0: Seq<PlainDiag> = if qv.1.len() == 0 {
                    seq![(Severity::Error, "URD428"@, msg_no_phases(qid@), qv.2)]
                } else {
                    Seq::empty()
                };
                proof { lemma_appended_empty(before); }
                if q.phases.len() == 0 {
                    let m = cat3("Sequence '", qid, "' declares no phases.");
                    report("URD428", false, m, &q.declared_in, diagnostics, Ghost(e0[0]));
                }
                let ghost d1 = diagnostics@;
                let ghost ps = qv.1;
                let mut k: usize = 0;
                proof { lemma_appended_empty(d1); assert(ps.take(0) =~= Seq::<PhaseV>::empty()); }
                while k < q.phases.len()
                    invariant
                        acts == action_entries(symbol_table.actions),
                        rules == rule_entries(symbol_table.rules),
                        ps == q.phases@.map_values(|p: crate::symbol_table::PhaseSymbol| crate::link::phase_view(p)),
                        k <= q.phases@.len(),
                        appended(diagnostics@, d1, phases_reports(acts, rules, qid@, ps.take(k as int))),
                    decreases q.phases@.len() - k,
                {
                    proof {
                        assert(ps.take(k + 1).drop_last() =~= ps.take(k as int));
                        assert(ps.take(k + 1).last() == crate::link::phase_view(q.phases@[k as int]));
                    }
                    let ghost dk = diagnostics@;
                    check_phase(&q.phases[k], qid, symbol_table, diagnostics);
                    proof { lemma_appended_trans(d1, dk, diagnostics@, phases_reports(acts, rules, qid@, ps.take(k as int)),
                        phase_reports(acts, rules, qid@, crate::link::phase_view(q.phases@[k as int]))); }
                    k += 1;
                }
                proof {
                    assert(ps.take(q.phases@.len() as int) =~= ps);
                    lemma_appended_trans(before, d1, diagnostics@, e0, phases_reports(acts, rules, qid@, ps));
                    lemma_appended_trans(d0, before, diagnostics@, sequence_reports(acts, rules, qs.take(i as int)),
                        e0 + phases_reports(acts, rules, qid@, ps));
                    assert(sequence_reports(acts, rules, qs.take(i as int)) + (e0 + phases_reports(acts, rules, qid@, ps))
                        =~= sequence_reports(acts, rules, qs.take(i + 1)));
                }
            },
            None => {},
        }
        i += 1;
    }
    assert(qs.take(keys@.len() as int) =~= qs);
}


// ── Global configuration (step 1) ──

/// What the `world:` blocks say, as far as validation reads them: the
/// last `start` and `entry` strings, the span of the last world block,
/// and whether some block sets `urd`.
pub type WorldScan = (Option<Seq<char>>, Option<Seq<char>>, Option<SpanV>, bool);

pub open spec fn scan_field(w: WorldScan, f: (Seq<char>, ScalarV)) -> WorldScan {
    if f.0 == "start"@ {
        match f.1 { ScalarV::Str(s) => (Some(s), w.1, w.2, w.3), _ => w }
    } else if f.0 == "entry"@ {
        match f.1 { ScalarV::Str(s) => (w.0, Some(s), w.2, w.3), _ => w }
    } else if f.0 == "urd"@ {
        (w.0, w.1, w.2, true)
    } else {
        w
    }
}

pub open spec fn scan_fields(w: WorldScan, fs: Seq<(Seq<char>, ScalarV)>) -> WorldScan
    decreases fs.len(),
{
    if fs.len() == 0 { w } else { scan_field(scan_fields(w, fs.drop_last()), fs.last()) }
}

pub open spec fn scan_entries(w: WorldScan, es: Seq<EntryV>) -> WorldScan
    decreases es.len(),
{
    if es.len() == 0 {
        w
    } else {
        let p = scan_entries(w, es.drop_last());
        match es.last().value {
            ValueV::WorldBlock(fs, span) => scan_fields((p.0, p.1, Some(span), p.3), fs),
            _ => p,
        }
    }
}

pub open spec fn scan_files(fs: Seq<crate::graph::FileNode>) -> WorldScan
    decreases fs.len(),
{
    if fs.len() == 0 {
        (None, None, None, false)
    } else {
        let p = scan_files(fs.drop_last());
        match fs.last().ast.frontmatter {
            Some(fm) => scan_entries(p, entries_view(fm.entries@)),
            None => p,
        }
    }
}

pub open spec fn msg_bad_start(s: Seq<char>) -> Seq<char> {
    "world.start references '"@ + s + "' but no location with that ID exists."@
}

pub open spec fn msg_bad_entry(s: Seq<char>) -> Seq<char> {
    "world.entry references '"@ + s + "' but no sequence with that ID exists."@
}

pub open spec fn msg_urd_field() -> Seq<char> {
    "The 'urd' field is set automatically by the compiler. Author value will be overridden."@
}

pub open spec fn msg_player_trait(t: Seq<char>, missing: Seq<char>) -> Seq<char> {
    "Player entity '@player' has type '"@ + t + "' which is missing required trait '"@ + missing
        + "'. The player type must have both 'mobile' and 'container' traits."@
}

/// What the player entity's type reports: each of `mobile` and
/// `container` it lacks.
pub open spec fn player_reports(t: SymbolTable) -> Seq<PlainDiag> {
    let ents = entity_entries(t.entities);
    let types = type_entries(t.types);
    match key_index(ents, "player"@) {
        Some(i) => match ents[i].1.2 {
            Some(tn) => match key_index(types, tn) {
                Some(k) => {
                    let traits = types[k].1.2;
                    let span = ents[i].1.3;
                    (if traits.contains("mobile"@) { Seq::empty() } else {
                        seq![(Severity::Error, "URD412"@, msg_player_trait(tn, "mobile"@), span)]
                    }) + (if traits.contains("container"@) { Seq::empty() } else {
                        seq![(Severity::Error, "URD412"@, msg_player_trait(tn, "container"@), span)]
                    })
                },
                None => Seq::empty(),
            },
            None => Seq::empty(),
        },
        None => Seq::empty(),
    }
}

/// What the global configuration check reports for the files `fs` (in
/// compilation order) and the linked symbol table.
pub open spec fn global_reports(fs: Seq<crate::graph::FileNode>, t: SymbolTable) -> Seq<PlainDiag> {
    let w = scan_files(fs);
    (match (w.0, w.2) {
        (Some(s), Some(span)) => if t.world_start is None {
            seq![(Severity::Error, "URD404"@, msg_bad_start(s), span)]
        } else {
            Seq::empty()
        },
        _ => Seq::empty(),
    }) + (match (w.1, w.2) {
        (Some(s), Some(span)) => if t.world_entry is None {
            seq![(Severity::Error, "URD405"@, msg_bad_entry(s), span)]
        } else {
            Seq::empty()
        },
        _ => Seq::empty(),
    }) + (match w.2 {
        Some(span) => if w.3 { seq![(Severity::Warning, "URD411"@, msg_urd_field(), span)] } else { Seq::empty() },
        None => Seq::empty(),
    }) + player_reports(t)
}

/// The scan state of the exec walk.
struct Scan {
    start: Option<String>,
    entry: Option<String>,
    span: Option<Span>,
    urd: bool,
}

spec fn scan_view(s: Scan) -> WorldScan {
    (opt_view(s.start), opt_view(s.entry), match s.span { Some(x) => Some(span_view(x)), None => None }, s.urd)
}

fn scan_world_fields(w: &mut Scan, fields: &Vec<(String, Scalar)>)
    ensures
        scan_view(*final(w)) == scan_fields(scan_view(*old(w)), crate::ast::pairs_view(fields@)),
{
    let ghost fv = crate::ast::pairs_view(fields@);
    let ghost w0 = scan_view(*w);
    proof {
        reveal_strlit("start");
        reveal_strlit("entry");
        reveal_strlit("urd");
        assert(fv.take(0) =~= Seq::<(Seq<char>, ScalarV)>::empty());
    }
    let mut i: usize = 0;
    while i < fields.len()
        invariant
            fv == crate::ast::pairs_view(fields@),
            i <= fields@.len(),
            scan_view(*w) == scan_fields(w0, fv.take(i as int)),
        decreases fields@.len() - i,
    {
        proof {
            assert(fv.take(i + 1).drop_last() =~= fv.take(i as int));
            assert(fv.take(i + 1).last() == fv[i as int]);
        }
        let key = fields[i].0.as_str();
        if crate::text::str_equals(key, "start") {
            match &fields[i].1 {
                Scalar::String(s) => { w.start = Some(s.clone()); },
                _ => {},
            }
        } else if crate::text::str_equals(key, "entry") {
            match &fields[i].1 {
                Scalar::String(s) => { w.entry = Some(s.clone()); },
                _ => {},
            }
        } else if crate::text::str_equals(key, "urd") {
            w.urd = true;
        }
        i += 1;
    }
    assert(fv.take(fields@.len() as int) =~= fv);
}

fn scan_world_entries(w: &mut Scan, entries: &Vec<crate::ast::FrontmatterEntry>)
    ensures
        scan_view(*final(w)) == scan_entries(scan_view(*old(w)), entries_view(entries@)),
{
    let ghost ev = entries_view(entries@);
    let ghost w0 = scan_view(*w);
    let mut i: usize = 0;
    proof {
        assert(ev.len() == entries@.len()) by { crate::checks::lemma_entries_view_len(entries@); }
    }
    while i < entries.len()
        invariant
            ev == entries_view(entries@),
            ev.len() == entries@.len(),
            i <= entries@.len(),
            scan_view(*w) == scan_entries(w0, entries_view(entries@.take(i as int))),
        decreases entries@.len() - i,
    {
        let ghost pv = entries_view(entries@.take(i as int));
        let ghost e = entries@[i as int];
        proof {
            assert(entries@.take(i + 1) =~= entries@.take(i as int).push(e));
            crate::ast::lemma_entries_view_push(entries@.take(i as int), e);
            let nv = entries_view(entries@.take(i + 1));
            assert(nv == pv.push(crate::ast::entry_view(e)));
            assert(nv.drop_last() =~= pv);
            assert(nv.last() == crate::ast::entry_view(e));
        }
        match &entries[i].value {
            FrontmatterValue::WorldBlock(wb) => {
                w.span = Some(wb.span.clone());
                scan_world_fields(w, &wb.fields);
            },
            _ => {},
        }
        i += 1;
    }
    assert(entries@.take(entries@.len() as int) =~= entries@);
}

pub proof fn lemma_entries_view_len(v: Seq<crate::ast::FrontmatterEntry>)
    ensures
        entries_view(v).len() == v.len(),
    decreases v.len(),
{
    if v.len() > 0 {
        lemma_entries_view_len(v.subrange(0, v.len() - 1));
    }
}

fn has_trait(traits: &Vec<String>, name: &str) -> (b: bool)
    ensures
        b == strings_view(traits@).contains(name@),
{
    in_scope(traits, name)
}

/// Global configuration checks: `world.start` and `world.entry` that do
/// not resolve (URD404, URD405), an author-set `urd` field (URD411
/// warning), and a player entity whose type lacks `mobile` or `container`
/// (URD412). `files` are the compilation unit's files in compilation
/// order.
pub fn validate_global_config(files: &Vec<crate::graph::FileNode>, symbol_table: &SymbolTable, diagnostics: &mut DiagnosticCollector)
    ensures
        appended(final(diagnostics)@, old(diagnostics)@, global_reports(files@, *symbol_table)),
{
    let mut w = Scan { start: None, entry: None, span: None, urd: false };
    let mut i: usize = 0;
    while i < files.len()
        invariant
            i <= files@.len(),
            scan_view(w) == scan_files(files@.take(i as int)),
        decreases files@.len() - i,
    {
        proof {
            assert(files@.take(i + 1).drop_last() =~= files@.take(i as int));
            assert(files@.take(i + 1).last() == files@[i as int]);
        }
        match &files[i].ast.frontmatter {
            Some(fm) => { scan_world_entries(&mut w, &fm.entries); },
            None => {},
        }
        i += 1;
    }
    assert(files@.take(files@.len() as int) =~= files@);
    let ghost ws = scan_files(files@);
    let ghost d0 = diagnostics@;
    // a. world.start
    let ghost ra: Seq<PlainDiag> = match (ws.0, ws.2) {
        (Some(s), Some(span)) => if symbol_table.world_start is None {
            seq![(Severity::Error, "URD404"@, msg_bad_start(s), span)]
        } else {
            Seq::empty()
        },
        _ => Seq::empty(),
    };
    proof { lemma_appended_empty(d0); }
    match (&w.start, &w.span) {
        (Some(s), Some(span)) => {
            if symbol_table.world_start.is_none() {
                let m = cat3("world.start references '", s.as_str(), "' but no location with that ID exists.");
                report("URD404", false, m, span, diagnostics, Ghost(ra[0]));
            }
        },
        _ => {},
    }
    let ghost d1 = diagnostics@;
    // b. world.entry
    let ghost rb: Seq<PlainDiag> = match (ws.1, ws.2) {
        (Some(s), Some(span)) => if symbol_table.world_entry is None {
            seq![(Severity::Error, "URD405"@, msg_bad_entry(s), span)]
        } else {
            Seq::empty()
        },
        _ => Seq::empty(),
    };
    proof { lemma_appended_empty(d1); }
    match (&w.entry, &w.span) {
        (Some(s), Some(span)) => {
            if symbol_table.world_entry.is_none() {
                let m = cat3("world.entry references '", s.as_str(), "' but no sequence with that ID exists.");
                report("URD405", false, m, span, diagnostics, Ghost(rb[0]));
            }
        },
        _ => {},
    }
    proof { lemma_appended_trans(d0, d1, diagnostics@, ra, rb); }
    let ghost d2 = diagnostics@;
    // c. urd field override
    let ghost rc: Seq<PlainDiag> = match ws.2 {
        Some(span) => if ws.3 { seq![(Severity::Warning, "URD411"@, msg_urd_field(), span)] } else { Seq::empty() },
        None => Seq::empty(),
    };
    proof { lemma_appended_empty(d2); }
    if w.urd {
        match &w.span {
            Some(span) => {
                let m = "The 'urd' field is set automatically by the compiler. Author value will be overridden.".to_owned();
                report("URD411", true, m, span, diagnostics, Ghost(rc[0]));
            },
            None => {},
        }
    }
    proof { lemma_appended_trans(d0, d2, diagnostics@, ra + rb, rc); }
    let ghost d3 = diagnostics@;
    // d. player entity traits
    let ghost rd = player_reports(*symbol_table);
    let ghost ents = entity_entries(symbol_table.entities);
    let ghost types = type_entries(symbol_table.types);
    proof {
        reveal_strlit("player");
        reveal_strlit("mobile");
        reveal_strlit("container");
        lemma_appended_empty(d3);
        lemma_key_index(ents, "player"@);
    }
    match entity_get(&symbol_table.entities, "player") {
        Some(player) => match &player.type_symbol {
            Some(tn) => {
                proof { lemma_key_index(types, tn@); }
                match type_get(&symbol_table.types, tn.as_str()) {
                    Some(ts) => {
                        let has_mobile = has_trait(&ts.traits, "mobile");
                        let has_container = has_trait(&ts.traits, "container");
                        let ghost x1: Seq<PlainDiag> = if has_mobile { Seq::empty() } else {
                            seq![(Severity::Error, "URD412"@, msg_player_trait(tn@, "mobile"@), span_view(player.declared_in))]
                        };
                        let ghost x2: Seq<PlainDiag> = if has_container { Seq::empty() } else {
                            seq![(Severity::Error, "URD412"@, msg_player_trait(tn@, "container"@), span_view(player.declared_in))]
                        };
                        if !has_mobile {
                            let m = player_message(tn.as_str(), "mobile");
                            report("URD412", false, m, &player.declared_in, diagnostics, Ghost(x1[0]));
                        }
                        let ghost d4 = diagnostics@;
                        proof { lemma_appended_empty(d4); }
                        if !has_container {
                            let m = player_message(tn.as_str(), "container");
                            report("URD412", false, m, &player.declared_in, diagnostics, Ghost(x2[0]));
                        }
                        proof {
                            lemma_appended_trans(d3, d4, diagnostics@, x1, x2);
                            assert(x1 + x2 == rd);
                        }
                    },
                    None => {},
                }
            },
            None => {},
        },
        None => {},
    }
    proof {
        lemma_appended_trans(d0, d3, diagnostics@, ra + rb + rc, rd);
        assert(ra + rb + rc + rd =~= global_reports(files@, *symbol_table));
    }
}

fn player_message(t: &str, missing: &str) -> (r: String)
    ensures
        r@ == msg_player_trait(t@, missing@),
{
    let mut v: Vec<char> = Vec::new();
    push_str(&mut v, "Player entity '@player' has type '");
    push_str(&mut v, t);
    push_str(&mut v, "' which is missing required trait '");
    push_str(&mut v, missing);
    push_str(&mut v, "'. The player type must have both 'mobile' and 'container' traits.");
    assert(v@ =~= msg_player_trait(t@, missing@));
    string_from_chars(v)
}

} // verus!
