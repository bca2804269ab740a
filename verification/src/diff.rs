//! Pieces of the semantic diff engine that compare compiled worlds: the
//! per-category snapshot records, the keys of diagnostics that a diff
//! tracks, and the orderings that make a report deterministic.

use vstd::prelude::*;
use crate::facts::JumpTarget;
use crate::text::{chars_of, occurs_at, find_char, find_seq, find_str, first_char_index, push_str, slice_chars,
    str_equals, string_from_chars};

verus! {

broadcast use vstd::string::group_string_axioms;

// ── Snapshot records ──

#[derive(Debug, Clone, PartialEq)]
pub struct LocationSnapshot {
    pub display_name: String,
    pub entity_ids: Vec<String>,
}

#[derive(Debug, Clone, PartialEq)]
pub struct ExitSnapshot {
    pub from: String,
    pub to: String,
    pub is_conditional: bool,
    pub guard_count: usize,
}

#[derive(Debug, Clone, PartialEq)]
pub struct SectionSnapshot {
    pub choice_ids: Vec<String>,
    pub jump_targets: Vec<String>,
}

#[derive(Debug, Clone, PartialEq)]
pub struct ChoiceSnapshot {
    pub label: String,
    pub sticky: bool,
    pub condition_count: usize,
    pub effect_count: usize,
    pub jump_targets: Vec<String>,
}

#[derive(Debug, Clone, Copy, PartialEq, Eq, Structural)]
pub struct RuleSnapshot {
    pub condition_count: usize,
    pub effect_count: usize,
}

#[derive(Debug, Clone, PartialEq)]
pub struct PropertySnapshot {
    pub read_count: usize,
    pub write_count: usize,
    pub orphaned: Option<String>,
}

#[derive(Debug, Clone, PartialEq, Eq, PartialOrd, Ord, Hash)]
pub struct DiagnosticKey {
    pub code: String,
    pub target_id: String,
}

#[derive(Debug)]
pub enum DiffError {
    UnsupportedSnapshotVersion,
    ParseError(String),
}

pub open spec fn diff_error_text(e: DiffError) -> Seq<char> {
    match e {
        DiffError::UnsupportedSnapshotVersion => "Unsupported snapshot version (expected \"1\")"@,
        DiffError::ParseError(msg) => "Snapshot parse error: "@ + msg@,
    }
}

impl DiffError {
    /// The text that describes the error to a user.
    pub fn message(&self) -> (s: String)
        ensures
            s@ == diff_error_text(*self),
    {
        match self {
            DiffError::UnsupportedSnapshotVersion => {
                string_from_chars(chars_of("Unsupported snapshot version (expected \"1\")"))
            },
            DiffError::ParseError(msg) => {
                let mut v = chars_of("Snapshot parse error: ");
                push_str(&mut v, msg.as_str());
                string_from_chars(v)
            },
        }
    }
}

/// The comparable text of a jump target.
pub open spec fn jump_target_text(t: JumpTarget) -> Seq<char> {
    match t {
        JumpTarget::Section(id) => id@,
        JumpTarget::Exit(id) => "exit:"@ + id@,
        JumpTarget::End => "__end__"@,
    }
}

/// Convert a JumpTarget to a comparable string.
pub fn jump_target_string(target: &JumpTarget) -> (s: String)
    ensures
        s@ == jump_target_text(*target),
{
    match target {
        JumpTarget::Section(id) => id.clone(),
        JumpTarget::Exit(id) => {
            let mut v = chars_of("exit:");
            push_str(&mut v, id.as_str());
            string_from_chars(v)
        },
        JumpTarget::End => string_from_chars(chars_of("__end__")),
    }
}

/// The text between `prefix` (its first occurrence) and the next `'`.
pub open spec fn quoted_after(message: Seq<char>, prefix: Seq<char>) -> Option<Seq<char>> {
    match find_seq(message, prefix) {
        None => None,
        Some(i) => {
            let rest = message.skip(i + prefix.len());
            match first_char_index(rest, '\'') {
                None => None,
                Some(e) => Some(rest.take(e)),
            }
        },
    }
}

fn quoted_after_exec(message: &str, prefix: &str) -> (r: Option<String>)
    ensures
        match r {
            Some(s) => quoted_after(message@, prefix@) == Some(s@),
            None => quoted_after(message@, prefix@) is None,
        },
{
    let v = chars_of(message);
    proof { crate::text::lemma_find_seq(v@, prefix@); }
    let start = match find_str(&v, prefix) {
        Some(i) => i,
        None => return None,
    };
    let pv = chars_of(prefix);
    let plen = pv.len();
    assert(occurs_at(v@, prefix@, start as int));
    assert(start + plen <= v.len());
    let rest = slice_chars(&v, start + plen, v.len());
    proof {
        assert(rest@ =~= v@.skip(start + prefix@.len()));
        crate::text::lemma_first_char_index(rest@, '\'');
    }
    match find_char(&rest, '\'') {
        Some(e) => {
            let t = slice_chars(&rest, 0, e);
            assert(t@ =~= rest@.take(e as int));
            Some(string_from_chars(t))
        },
        None => None,
    }
}

/// Extract location slug from URD430 message.
/// Pattern: "Location '...' is unreachable"
pub fn extract_urd430_target(message: &str) -> (r: Option<String>)
    ensures
        match r {
            Some(s) => quoted_after(message@, "Location '"@) == Some(s@),
            None => quoted_after(message@, "Location '"@) is None,
        },
{
    quoted_after_exec(message, "Location '")
}

/// Extract section compiled_id from URD432 message.
/// Pattern: "Choice in section '...'"
pub fn extract_urd432_target(message: &str) -> (r: Option<String>)
    ensures
        match r {
            Some(s) => quoted_after(message@, "Choice in section '"@) == Some(s@),
            None => quoted_after(message@, "Choice in section '"@) is None,
        },
{
    quoted_after_exec(message, "Choice in section '")
}

/// A quoted name after a prefix is read back whole: a message made of the
/// prefix, a name without a quote, and a rest that begins with the closing
/// quote gives that name.
pub proof fn lemma_quoted_after_round_trip(prefix: Seq<char>, name: Seq<char>, rest: Seq<char>)
    requires
        !name.contains('\''),
        rest.len() > 0,
        rest[0] == '\'',
    ensures
        quoted_after(prefix + name + rest, prefix) == Some(name),
{
    let m = prefix + name + rest;
    assert(m.take(prefix.len() as int) =~= prefix);
    assert(crate::text::starts_with(m, prefix));
    let r = m.skip(prefix.len() as int);
    assert(r =~= name + rest);
    crate::text::lemma_first_char_index(r, '\'');
    assert(r[name.len() as int] == '\'');
    assert forall|j: int| 0 <= j < name.len() implies r[j] != '\'' by {
        assert(r[j] == name[j]);
    }
    let e = first_char_index(r, '\'').unwrap();
    assert(e == name.len());
    assert(r.take(e) =~= name);
}

/// The location of an unreachable-location message is read back whole.
pub proof fn lemma_urd430_target_round_trip(id: Seq<char>)
    requires
        !id.contains('\''),
    ensures
        quoted_after("Location '"@ + id + "' is unreachable. No path from the start location reaches it."@,
            "Location '"@) == Some(id),
{
    reveal_strlit("' is unreachable. No path from the start location reaches it.");
    lemma_quoted_after_round_trip("Location '"@, id,
        "' is unreachable. No path from the start location reaches it."@);
}

/// The section of an orphaned-choice message is read back whole.
pub proof fn lemma_urd432_target_round_trip(section: Seq<char>, rest: Seq<char>)
    requires
        !section.contains('\''),
    ensures
        quoted_after("Choice in section '"@ + section + "' (file '"@ + rest, "Choice in section '"@) == Some(section),
{
    reveal_strlit("' (file '");
    assert("Choice in section '"@ + section + "' (file '"@ + rest =~= "Choice in section '"@ + section + ("' (file '"@ + rest));
    lemma_quoted_after_round_trip("Choice in section '"@, section, "' (file '"@ + rest);
}

/// The position of a change category in a report.
pub open spec fn category_rank(cat: Seq<char>) -> nat {
    if cat == "entity"@ {
        0
    } else if cat == "location"@ {
        1
    } else if cat == "exit"@ {
        2
    } else if cat == "section"@ {
        3
    } else if cat == "choice"@ {
        4
    } else if cat == "rule"@ {
        5
    } else if cat == "property_dependency"@ {
        6
    } else if cat == "reachability"@ {
        7
    } else {
        8
    }
}

/// Category ordering for deterministic output.
pub fn category_order(cat: &str) -> (r: usize)
    ensures
        r == category_rank(cat@),
{
    if str_equals(cat, "entity") {
        0
    } else if str_equals(cat, "location") {
        1
    } else if str_equals(cat, "exit") {
        2
    } else if str_equals(cat, "section") {
        3
    } else if str_equals(cat, "choice") {
        4
    } else if str_equals(cat, "rule") {
        5
    } else if str_equals(cat, "property_dependency") {
        6
    } else if str_equals(cat, "reachability") {
        7
    } else {
        8
    }
}

/// The position of a change kind within its category: additions, then
/// removals, then every kind of change.
pub open spec fn kind_rank(kind: Seq<char>) -> nat {
    if kind == "added"@ {
        0
    } else if kind == "removed"@ {
        1
    } else {
        2
    }
}

/// Kind ordering within a category.
pub fn kind_order(kind: &str) -> (r: usize)
    ensures
        r == kind_rank(kind@),
{
    if str_equals(kind, "added") {
        0
    } else if str_equals(kind, "removed") {
        1
    } else {
        2
    }
}

} // verus!
