//! Analysis IR: FactSet — normalized tuples extracted from the resolved world.
//!
//! The FactSet is a flat, immutable, deterministic set of typed tuples
//! produced after LINK. Each tuple represents one atomic relationship
//! established by declarations, references, or resolutions.
//!
//! Consumers access data through slice accessors and lookup helpers.
//! Private fields enforce immutability at the type level; a `FactSet` is
//! produced only by `FactSetBuilder::finish`, which guarantees that every
//! stored read/write index points into the fact set.

use vstd::prelude::*;
use vstd::std_specs::cmp::PartialEqSpecImpl;
use indexmap::IndexMap;
use crate::span::Span;
use crate::symbol_table::PropertyType;
use crate::text::{chars_of, str_equals, find_char, first_char_index, lemma_first_char_index,
    push_str, string_from_chars, is_float_literal, is_float_text, parse_i64, spec_parse_i64};

verus! {

// ── Identity type aliases ──

/// Resolved type name (e.g., "Guard").
pub type TypeId = String;
/// Resolved property name (e.g., "trust").
pub type PropertyId = String;
/// Slugified location ID.
pub type LocationId = String;
/// Compiled section ID (file_stem/section_name).
pub type SectionId = String;
/// Compiled choice ID (section_id/slugified_label).
pub type ChoiceId = String;
/// Composite exit ID: "location_id/exit_name".
pub type ExitId = String;
/// Rule identifier.
pub type RuleId = String;

/// The text view of a (type, property) pair.
pub type KeyView = (Seq<char>, Seq<char>);

// ── PropertyKey ──

/// Normalized key for property-level queries and indexing.
#[derive(Debug, Hash)]
pub struct PropertyKey {
    pub entity_type: TypeId,
    pub property: PropertyId,
}

impl View for PropertyKey {
    type V = KeyView;

    open spec fn view(&self) -> KeyView {
        (self.entity_type@, self.property@)
    }
}

impl Clone for PropertyKey {
    fn clone(&self) -> (r: Self)
        ensures
            r == *self,
    {
        PropertyKey { entity_type: self.entity_type.clone(), property: self.property.clone() }
    }
}

impl PartialEq for PropertyKey {
    fn eq(&self, other: &Self) -> (r: bool) {
        self.entity_type == other.entity_type && self.property == other.property
    }
}

impl PartialEqSpecImpl for PropertyKey {
    open spec fn obeys_eq_spec() -> bool {
        true
    }

    open spec fn eq_spec(&self, other: &PropertyKey) -> bool {
        self@ == other@
    }
}

impl Eq for PropertyKey {}

// ── Enums ──

/// Typed comparison operators.
#[derive(Debug, Clone, Copy, PartialEq, Eq, Structural)]
pub enum CompareOp {
    Eq,
    Ne,
    Lt,
    Gt,
    Le,
    Ge,
}

/// The source token of a comparison operator.
pub open spec fn compare_op_token(op: CompareOp) -> Seq<char> {
    match op {
        CompareOp::Eq => seq!['=', '='],
        CompareOp::Ne => seq!['!', '='],
        CompareOp::Lt => seq!['<'],
        CompareOp::Gt => seq!['>'],
        CompareOp::Le => seq!['<', '='],
        CompareOp::Ge => seq!['>', '='],
    }
}

/// The comparison operator written by a token, if any.
pub open spec fn compare_op_of(t: Seq<char>) -> Option<CompareOp> {
    if t.len() == 2 && t[0] == '=' && t[1] == '=' {
        Some(CompareOp::Eq)
    } else if t.len() == 2 && t[0] == '!' && t[1] == '=' {
        Some(CompareOp::Ne)
    } else if t.len() == 1 && t[0] == '<' {
        Some(CompareOp::Lt)
    } else if t.len() == 1 && t[0] == '>' {
        Some(CompareOp::Gt)
    } else if t.len() == 2 && t[0] == '<' && t[1] == '=' {
        Some(CompareOp::Le)
    } else if t.len() == 2 && t[0] == '>' && t[1] == '=' {
        Some(CompareOp::Ge)
    } else {
        None
    }
}

impl CompareOp {
    pub fn from_token(token: &str) -> (r: Option<CompareOp>)
        ensures
            r == compare_op_of(token@),
    {
        let t = chars_of(token);
        let n = t.len();
        if n == 2 && t[0] == '=' && t[1] == '=' {
            Some(CompareOp::Eq)
        } else if n == 2 && t[0] == '!' && t[1] == '=' {
            Some(CompareOp::Ne)
        } else if n == 1 && t[0] == '<' {
            Some(CompareOp::Lt)
        } else if n == 1 && t[0] == '>' {
            Some(CompareOp::Gt)
        } else if n == 2 && t[0] == '<' && t[1] == '=' {
            Some(CompareOp::Le)
        } else if n == 2 && t[0] == '>' && t[1] == '=' {
            Some(CompareOp::Ge)
        } else {
            None
        }
    }
}

/// Typed write operators.
#[derive(Debug, Clone, Copy, PartialEq, Eq, Structural)]
pub enum WriteOp {
    Assign,
    Add,
    Sub,
}

/// The source token of a write operator.
pub open spec fn write_op_token(op: WriteOp) -> Seq<char> {
    match op {
        WriteOp::Assign => seq!['='],
        WriteOp::Add => seq!['+'],
        WriteOp::Sub => seq!['-'],
    }
}

/// The write operator written by a token, if any.
pub open spec fn write_op_of(t: Seq<char>) -> Option<WriteOp> {
    if t.len() == 1 && t[0] == '=' {
        Some(WriteOp::Assign)
    } else if t.len() == 1 && t[0] == '+' {
        Some(WriteOp::Add)
    } else if t.len() == 1 && t[0] == '-' {
        Some(WriteOp::Sub)
    } else {
        None
    }
}

impl WriteOp {
    pub fn from_token(token: &str) -> (r: Option<WriteOp>)
        ensures
            r == write_op_of(token@),
    {
        let t = chars_of(token);
        if t.len() == 1 && t[0] == '=' {
            Some(WriteOp::Assign)
        } else if t.len() == 1 && t[0] == '+' {
            Some(WriteOp::Add)
        } else if t.len() == 1 && t[0] == '-' {
            Some(WriteOp::Sub)
        } else {
            None
        }
    }
}

/// Distinguishes literal kinds for downstream reasoning.
#[derive(Debug, Clone, Copy, PartialEq, Eq, Structural)]
pub enum LiteralKind {
    Bool,
    Int,
    Str,
    /// Bare identifier, typically an enum variant.
    Ident,
}

/// Typed jump destination.
#[derive(Debug)]
pub enum JumpTarget {
    Section(SectionId),
    Exit(ExitId),
    End,
}

impl Clone for JumpTarget {
    fn clone(&self) -> (r: Self)
        ensures
            r == *self,
    {
        match self {
            JumpTarget::Section(id) => JumpTarget::Section(id.clone()),
            JumpTarget::Exit(id) => JumpTarget::Exit(id.clone()),
            JumpTarget::End => JumpTarget::End,
        }
    }
}

/// Discriminator for where a read or write occurs.
#[derive(Debug)]
#[non_exhaustive]
pub enum FactSite {
    Choice(ChoiceId),
    Exit(ExitId),
    Rule(RuleId),
}

impl Clone for FactSite {
    fn clone(&self) -> (r: Self)
        ensures
            r == *self,
    {
        match self {
            FactSite::Choice(id) => FactSite::Choice(id.clone()),
            FactSite::Exit(id) => FactSite::Exit(id.clone()),
            FactSite::Rule(id) => FactSite::Rule(id.clone()),
        }
    }
}

/// The result of resolving a FactSite to its owning construct.
pub enum SiteOwner<'a> {
    Choice(&'a ChoiceFact),
    Exit(&'a ExitEdge),
    Rule(&'a RuleFact),
}

// ── Fact structs ──

/// A condition reads an entity's property.
#[derive(Debug)]
pub struct PropertyRead {
    pub site: FactSite,
    pub entity_type: TypeId,
    pub property: PropertyId,
    pub operator: CompareOp,
    pub value_literal: String,
    pub value_kind: LiteralKind,
    pub span: Span,
}

impl PropertyRead {
    /// The (type, property) text this read is about.
    pub open spec fn key_view(&self) -> KeyView {
        (self.entity_type@, self.property@)
    }

    pub fn key(&self) -> (k: PropertyKey)
        ensures
            k.entity_type == self.entity_type,
            k.property == self.property,
    {
        PropertyKey { entity_type: self.entity_type.clone(), property: self.property.clone() }
    }
}

/// An effect writes an entity's property.
#[derive(Debug)]
pub struct PropertyWrite {
    pub site: FactSite,
    pub entity_type: TypeId,
    pub property: PropertyId,
    pub operator: WriteOp,
    pub value_expr: String,
    pub value_kind: Option<LiteralKind>,
    pub span: Span,
}

impl PropertyWrite {
    /// The (type, property) text this write is about.
    pub open spec fn key_view(&self) -> KeyView {
        (self.entity_type@, self.property@)
    }

    pub fn key(&self) -> (k: PropertyKey)
        ensures
            k.entity_type == self.entity_type,
            k.property == self.property,
    {
        PropertyKey { entity_type: self.entity_type.clone(), property: self.property.clone() }
    }
}

/// An exit connects two locations.
#[derive(Debug)]
pub struct ExitEdge {
    pub from_location: LocationId,
    pub to_location: LocationId,
    pub exit_name: String,
    pub is_conditional: bool,
    pub guard_reads: Vec<usize>,
    pub span: Span,
}

impl ExitEdge {
    /// The canonical ExitId of this exit.
    pub open spec fn id_view(&self) -> Seq<char> {
        exit_id_text(self.from_location@, self.exit_name@)
    }

    /// Derive the canonical ExitId from components.
    pub fn exit_id(&self) -> (id: ExitId)
        ensures
            id@ == self.id_view(),
    {
        make_exit_id(self.from_location.as_str(), self.exit_name.as_str())
    }
}

/// A jump connects two dialogue sections, or a section to an exit or terminal.
#[derive(Debug)]
pub struct JumpEdge {
    pub from_section: SectionId,
    pub target: JumpTarget,
    pub span: Span,
}

/// A choice exists within a section.
#[derive(Debug)]
pub struct ChoiceFact {
    pub section: SectionId,
    pub choice_id: ChoiceId,
    pub label: String,
    pub sticky: bool,
    pub condition_reads: Vec<usize>,
    pub effect_writes: Vec<usize>,
    pub span: Span,
}

/// A rule, with its conditions and effects indexed into the FactSet.
#[derive(Debug)]
pub struct RuleFact {
    pub rule_id: RuleId,
    pub condition_reads: Vec<usize>,
    pub effect_writes: Vec<usize>,
    pub span: Span,
}

// ── Helpers ──

/// The text of an ExitId: location id, `/`, exit name.
pub open spec fn exit_id_text(location_id: Seq<char>, exit_name: Seq<char>) -> Seq<char> {
    location_id + seq!['/'] + exit_name
}

/// The two parts of an ExitId, split at its first `/`.
pub open spec fn exit_id_parts(exit_id: Seq<char>) -> Option<(Seq<char>, Seq<char>)> {
    match first_char_index(exit_id, '/') {
        Some(i) => Some((exit_id.take(i), exit_id.skip(i + 1))),
        None => None,
    }
}

/// Compose an ExitId from its components.
pub fn make_exit_id(location_id: &str, exit_name: &str) -> (id: ExitId)
    ensures
        id@ == exit_id_text(location_id@, exit_name@),
{
    let mut v = chars_of(location_id);
    v.push('/');
    push_str(&mut v, exit_name);
    string_from_chars(v)
}

/// Split an ExitId into its (location_id, exit_name) components.
pub fn split_exit_id(exit_id: &str) -> (r: Option<(&str, &str)>)
    ensures
        match exit_id_parts(exit_id@) {
            Some((l, n)) => r matches Some((a, b)) && a@ == l && b@ == n,
            None => r is None,
        },
{
    let v = chars_of(exit_id);
    proof {
        lemma_first_char_index(v@, '/');
    }
    match find_char(&v, '/') {
        Some(i) => {
            let n = exit_id.unicode_len();
            let a = exit_id.substring_char(0, i);
            let b = exit_id.substring_char(i + 1, n);
            assert(a@ =~= exit_id@.take(i as int));
            assert(b@ =~= exit_id@.skip(i + 1));
            Some((a, b))
        },
        None => None,
    }
}

/// Splitting a composed ExitId gives back its components, whenever the
/// location id holds no `/`.
pub proof fn lemma_exit_id_roundtrip(location_id: Seq<char>, exit_name: Seq<char>)
    requires
        !location_id.contains('/'),
    ensures
        exit_id_parts(exit_id_text(location_id, exit_name)) == Some((location_id, exit_name)),
{
    let s = exit_id_text(location_id, exit_name);
    lemma_first_char_index(s, '/');
    assert(s[location_id.len() as int] == '/');
    let f = first_char_index(s, '/');
    if f.unwrap() < location_id.len() {
        assert(s[f.unwrap()] == location_id[f.unwrap()]);
    }
    assert(s.take(location_id.len() as int) =~= location_id);
    assert(s.skip(location_id.len() as int + 1) =~= exit_name);
}

// ── FactSet container ──

/// Every index is below `n`.
pub open spec fn indices_below(v: Seq<usize>, n: int) -> bool {
    forall|i: int| 0 <= i < v.len() ==> (#[trigger] v[i] as int) < n
}

/// All index fields of the facts point into the reads and writes.
pub open spec fn facts_wf(
    n_reads: int,
    n_writes: int,
    exits: Seq<ExitEdge>,
    choices: Seq<ChoiceFact>,
    rules: Seq<RuleFact>,
) -> bool {
    &&& forall|i: int| 0 <= i < exits.len() ==> indices_below((#[trigger] exits[i]).guard_reads@, n_reads)
    &&& forall|i: int| 0 <= i < choices.len() ==> indices_below((#[trigger] choices[i]).condition_reads@, n_reads)
    &&& forall|i: int| 0 <= i < choices.len() ==> indices_below((#[trigger] choices[i]).effect_writes@, n_writes)
    &&& forall|i: int| 0 <= i < rules.len() ==> indices_below((#[trigger] rules[i]).condition_reads@, n_reads)
    &&& forall|i: int| 0 <= i < rules.len() ==> indices_below((#[trigger] rules[i]).effect_writes@, n_writes)
}

/// The complete set of facts extracted from a resolved world.
/// Immutable after construction.
pub struct FactSet {
    reads: Vec<PropertyRead>,
    writes: Vec<PropertyWrite>,
    exits: Vec<ExitEdge>,
    jumps: Vec<JumpEdge>,
    choices: Vec<ChoiceFact>,
    rules: Vec<RuleFact>,
}

/// The first position in `v` whose element satisfies `p`.
pub open spec fn first_where<T>(v: Seq<T>, p: spec_fn(T) -> bool) -> Option<int>
    decreases v.len(),
{
    if v.len() == 0 {
        None
    } else if p(v[0]) {
        Some(0)
    } else {
        match first_where(v.drop_first(), p) {
            Some(i) => Some(i + 1),
            None => None,
        }
    }
}

pub proof fn lemma_first_where<T>(v: Seq<T>, p: spec_fn(T) -> bool)
    ensures
        match first_where(v, p) {
            Some(i) => 0 <= i < v.len() && p(v[i]) && forall|j: int| 0 <= j < i ==> !p(#[trigger] v[j]),
            None => forall|j: int| 0 <= j < v.len() ==> !p(#[trigger] v[j]),
        },
    decreases v.len(),
{
    if v.len() > 0 {
        lemma_first_where(v.drop_first(), p);
        if !p(v[0]) {
            assert forall|j: int| 0 < j < v.len() implies v[j] == v.drop_first()[j - 1] by {}
        }
    }
}

/// `r` is the first element of `v` satisfying `p`, or `None` when none does.
pub open spec fn is_first_match<T>(v: Seq<T>, p: spec_fn(T) -> bool, r: Option<&T>) -> bool {
    match r {
        Some(x) => exists|i: int| 0 <= i < v.len() && v[i] == *x && p(v[i])
            && forall|j: int| 0 <= j < i ==> !p(#[trigger] v[j]),
        None => forall|i: int| 0 <= i < v.len() ==> !p(#[trigger] v[i]),
    }
}

impl FactSet {
    pub closed spec fn spec_reads(&self) -> Seq<PropertyRead> {
        self.reads@
    }

    pub closed spec fn spec_writes(&self) -> Seq<PropertyWrite> {
        self.writes@
    }

    pub closed spec fn spec_exits(&self) -> Seq<ExitEdge> {
        self.exits@
    }

    pub closed spec fn spec_jumps(&self) -> Seq<JumpEdge> {
        self.jumps@
    }

    pub closed spec fn spec_choices(&self) -> Seq<ChoiceFact> {
        self.choices@
    }

    pub closed spec fn spec_rules(&self) -> Seq<RuleFact> {
        self.rules@
    }

    /// Every stored index points into the reads or writes.
    pub open spec fn wf(&self) -> bool {
        facts_wf(
            self.spec_reads().len() as int,
            self.spec_writes().len() as int,
            self.spec_exits(),
            self.spec_choices(),
            self.spec_rules(),
        )
    }

    /// The stored sequences are held in memory, so their lengths fit in a `usize`.
    pub proof fn lemma_lengths_fit(&self)
        ensures
            self.spec_reads().len() <= usize::MAX,
            self.spec_writes().len() <= usize::MAX,
    {
        assert(self.reads.len() == self.reads@.len());
        assert(self.writes.len() == self.writes@.len());
    }

    // Slice accessors.

    pub fn reads(&self) -> (s: &[PropertyRead])
        ensures
            s@ == self.spec_reads(),
    {
        self.reads.as_slice()
    }

    pub fn writes(&self) -> (s: &[PropertyWrite])
        ensures
            s@ == self.spec_writes(),
    {
        self.writes.as_slice()
    }

    pub fn exits(&self) -> (s: &[ExitEdge])
        ensures
            s@ == self.spec_exits(),
    {
        self.exits.as_slice()
    }

    pub fn jumps(&self) -> (s: &[JumpEdge])
        ensures
            s@ == self.spec_jumps(),
    {
        self.jumps.as_slice()
    }

    pub fn choices(&self) -> (s: &[ChoiceFact])
        ensures
            s@ == self.spec_choices(),
    {
        self.choices.as_slice()
    }

    pub fn rules(&self) -> (s: &[RuleFact])
        ensures
            s@ == self.spec_rules(),
    {
        self.rules.as_slice()
    }

    // Lookup helpers.

    /// The first choice with the given id.
    pub fn choice_by_id(&self, id: &str) -> (r: Option<&ChoiceFact>)
        ensures
            is_first_match(self.spec_choices(), |c: ChoiceFact| c.choice_id@ == id@, r),
    {
        let mut i: usize = 0;
        while i < self.choices.len()
            invariant
                i <= self.choices.len(),
                forall|j: int| 0 <= j < i ==> (#[trigger] self.choices@[j]).choice_id@ != id@,
            decreases self.choices.len() - i,
        {
            if str_equals(self.choices[i].choice_id.as_str(), id) {
                return Some(&self.choices[i]);
            }
            i += 1;
        }
        None
    }

    /// The first exit whose ExitId is `exit_id`.
    pub fn exit_by_id(&self, exit_id: &str) -> (r: Option<&ExitEdge>)
        requires
            self.wf(),
        ensures
            is_first_match(self.spec_exits(), |e: ExitEdge| e.id_view() == exit_id@, r),
    {
        let mut i: usize = 0;
        while i < self.exits.len()
            invariant
                self.wf(),
                i <= self.exits.len(),
                forall|j: int| 0 <= j < i ==> (#[trigger] self.exits@[j]).id_view() != exit_id@,
            decreases self.exits.len() - i,
        {
            let id = self.exits[i].exit_id();
            if str_equals(id.as_str(), exit_id) {
                return Some(&self.exits[i]);
            }
            i += 1;
        }
        None
    }

    /// The first exit leaving `location` under the name `exit_name`.
    pub fn exit_by_location_and_name(&self, location: &str, exit_name: &str) -> (r: Option<&ExitEdge>)
        ensures
            is_first_match(
                self.spec_exits(),
                |e: ExitEdge| e.from_location@ == location@ && e.exit_name@ == exit_name@,
                r,
            ),
    {
        let mut i: usize = 0;
        while i < self.exits.len()
            invariant
                i <= self.exits.len(),
                forall|j: int| 0 <= j < i ==> !((#[trigger] self.exits@[j]).from_location@ == location@
                    && self.exits@[j].exit_name@ == exit_name@),
            decreases self.exits.len() - i,
        {
            if str_equals(self.exits[i].from_location.as_str(), location)
                && str_equals(self.exits[i].exit_name.as_str(), exit_name) {
                return Some(&self.exits[i]);
            }
            i += 1;
        }
        None
    }

    /// The first rule with the given id.
    pub fn rule_by_id(&self, id: &str) -> (r: Option<&RuleFact>)
        ensures
            is_first_match(self.spec_rules(), |x: RuleFact| x.rule_id@ == id@, r),
    {
        let mut i: usize = 0;
        while i < self.rules.len()
            invariant
                i <= self.rules.len(),
                forall|j: int| 0 <= j < i ==> (#[trigger] self.rules@[j]).rule_id@ != id@,
            decreases self.rules.len() - i,
        {
            if str_equals(self.rules[i].rule_id.as_str(), id) {
                return Some(&self.rules[i]);
            }
            i += 1;
        }
        None
    }

    // Property-level queries.

    /// All reads of the given (type, property), in order.
    pub fn reads_by_key(&self, key: &PropertyKey) -> (r: Vec<&PropertyRead>)
        ensures
            r@.len() == indices_with_key(read_keys(self.spec_reads()), key@).len(),
            forall|k: int| 0 <= k < r@.len() ==> *(#[trigger] r@[k])
                == self.spec_reads()[indices_with_key(read_keys(self.spec_reads()), key@)[k]],
    {
        let ghost ks = read_keys(self.spec_reads());
        let mut r: Vec<&PropertyRead> = Vec::new();
        let mut i: usize = 0;
        while i < self.reads.len()
            invariant
                i <= self.reads.len(),
                ks == read_keys(self.reads@),
                r@.len() == indices_with_key(ks.take(i as int), key@).len(),
                forall|k: int| 0 <= k < r@.len() ==> *(#[trigger] r@[k])
                    == self.reads@[indices_with_key(ks.take(i as int), key@)[k]],
            decreases self.reads.len() - i,
        {
            proof {
                lemma_indices_with_key_step(ks, key@, i as int);
            }
            if str_equals(self.reads[i].entity_type.as_str(), key.entity_type.as_str())
                && str_equals(self.reads[i].property.as_str(), key.property.as_str()) {
                r.push(&self.reads[i]);
            }
            i += 1;
        }
        assert(ks.take(self.reads.len() as int) == ks);
        r
    }

    /// All writes of the given (type, property), in order.
    pub fn writes_by_key(&self, key: &PropertyKey) -> (r: Vec<&PropertyWrite>)
        ensures
            r@.len() == indices_with_key(write_keys(self.spec_writes()), key@).len(),
            forall|k: int| 0 <= k < r@.len() ==> *(#[trigger] r@[k])
                == self.spec_writes()[indices_with_key(write_keys(self.spec_writes()), key@)[k]],
    {
        let ghost ks = write_keys(self.spec_writes());
        let mut r: Vec<&PropertyWrite> = Vec::new();
        let mut i: usize = 0;
        while i < self.writes.len()
            invariant
                i <= self.writes.len(),
                ks == write_keys(self.writes@),
                r@.len() == indices_with_key(ks.take(i as int), key@).len(),
                forall|k: int| 0 <= k < r@.len() ==> *(#[trigger] r@[k])
                    == self.writes@[indices_with_key(ks.take(i as int), key@)[k]],
            decreases self.writes.len() - i,
        {
            proof {
                lemma_indices_with_key_step(ks, key@, i as int);
            }
            if str_equals(self.writes[i].entity_type.as_str(), key.entity_type.as_str())
                && str_equals(self.writes[i].property.as_str(), key.property.as_str()) {
                r.push(&self.writes[i]);
            }
            i += 1;
        }
        assert(ks.take(self.writes.len() as int) == ks);
        r
    }

    /// The sites of all reads of the given (type, property), in order.
    pub fn sites_reading(&self, key: &PropertyKey) -> (r: Vec<&FactSite>)
        ensures
            r@.len() == indices_with_key(read_keys(self.spec_reads()), key@).len(),
            forall|k: int| 0 <= k < r@.len() ==> *(#[trigger] r@[k])
                == self.spec_reads()[indices_with_key(read_keys(self.spec_reads()), key@)[k]].site,
    {
        let reads = self.reads_by_key(key);
        let mut r: Vec<&FactSite> = Vec::new();
        let mut i: usize = 0;
        while i < reads.len()
            invariant
                i <= reads.len(),
                r@.len() == i,
                forall|k: int| 0 <= k < i ==> *(#[trigger] r@[k]) == reads@[k].site,
            decreases reads.len() - i,
        {
            r.push(&reads[i].site);
            i += 1;
        }
        r
    }

    /// The sites of all writes of the given (type, property), in order.
    pub fn sites_writing(&self, key: &PropertyKey) -> (r: Vec<&FactSite>)
        ensures
            r@.len() == indices_with_key(write_keys(self.spec_writes()), key@).len(),
            forall|k: int| 0 <= k < r@.len() ==> *(#[trigger] r@[k])
                == self.spec_writes()[indices_with_key(write_keys(self.spec_writes()), key@)[k]].site,
    {
        let writes = self.writes_by_key(key);
        let mut r: Vec<&FactSite> = Vec::new();
        let mut i: usize = 0;
        while i < writes.len()
            invariant
                i <= writes.len(),
                r@.len() == i,
                forall|k: int| 0 <= k < i ==> *(#[trigger] r@[k]) == writes@[k].site,
            decreases writes.len() - i,
        {
            r.push(&writes[i].site);
            i += 1;
        }
        r
    }

    // Site adjacency.

    /// The read indices of the construct a site names: a choice's condition
    /// reads, an exit's guard reads, a rule's condition reads; empty when no
    /// construct has the site's id.
    pub open spec fn site_read_indices(&self, site: FactSite) -> Seq<usize> {
        match site {
            FactSite::Choice(id) => match first_where(self.spec_choices(), |c: ChoiceFact| c.choice_id@ == id@) {
                Some(i) => self.spec_choices()[i].condition_reads@,
                None => Seq::empty(),
            },
            FactSite::Exit(id) => match first_where(self.spec_exits(), |e: ExitEdge| e.id_view() == id@) {
                Some(i) => self.spec_exits()[i].guard_reads@,
                None => Seq::empty(),
            },
            FactSite::Rule(id) => match first_where(self.spec_rules(), |x: RuleFact| x.rule_id@ == id@) {
                Some(i) => self.spec_rules()[i].condition_reads@,
                None => Seq::empty(),
            },
        }
    }

    /// The write indices of the construct a site names (exits write nothing).
    pub open spec fn site_write_indices(&self, site: FactSite) -> Seq<usize> {
        match site {
            FactSite::Choice(id) => match first_where(self.spec_choices(), |c: ChoiceFact| c.choice_id@ == id@) {
                Some(i) => self.spec_choices()[i].effect_writes@,
                None => Seq::empty(),
            },
            FactSite::Rule(id) => match first_where(self.spec_rules(), |x: RuleFact| x.rule_id@ == id@) {
                Some(i) => self.spec_rules()[i].effect_writes@,
                None => Seq::empty(),
            },
            FactSite::Exit(_) => Seq::empty(),
        }
    }

    pub fn read_indices_for_site(&self, site: &FactSite) -> (r: &[usize])
        requires
            self.wf(),
        ensures
            r@ == self.site_read_indices(*site),
    {
        match site {
            FactSite::Choice(id) => match self.choice_by_id(id.as_str()) {
                Some(c) => {
                    proof { lemma_first_match_is_first_where(self.spec_choices(), |c: ChoiceFact| c.choice_id@ == id@, Some(c)); }
                    c.condition_reads.as_slice()
                },
                None => {
                    proof { lemma_first_match_is_first_where(self.spec_choices(), |c: ChoiceFact| c.choice_id@ == id@, None); }
                    empty_indices()
                },
            },
            FactSite::Exit(id) => match self.exit_by_id(id.as_str()) {
                Some(e) => {
                    proof { lemma_first_match_is_first_where(self.spec_exits(), |e: ExitEdge| e.id_view() == id@, Some(e)); }
                    e.guard_reads.as_slice()
                },
                None => {
                    proof { lemma_first_match_is_first_where(self.spec_exits(), |e: ExitEdge| e.id_view() == id@, None); }
                    empty_indices()
                },
            },
            FactSite::Rule(id) => match self.rule_by_id(id.as_str()) {
                Some(x) => {
                    proof { lemma_first_match_is_first_where(self.spec_rules(), |x: RuleFact| x.rule_id@ == id@, Some(x)); }
                    x.condition_reads.as_slice()
                },
                None => {
                    proof { lemma_first_match_is_first_where(self.spec_rules(), |x: RuleFact| x.rule_id@ == id@, None); }
                    empty_indices()
                },
            },
        }
    }

    pub fn write_indices_for_site(&self, site: &FactSite) -> (r: &[usize])
        ensures
            r@ == self.site_write_indices(*site),
    {
        match site {
            FactSite::Choice(id) => match self.choice_by_id(id.as_str()) {
                Some(c) => {
                    proof { lemma_first_match_is_first_where(self.spec_choices(), |c: ChoiceFact| c.choice_id@ == id@, Some(c)); }
                    c.effect_writes.as_slice()
                },
                None => {
                    proof { lemma_first_match_is_first_where(self.spec_choices(), |c: ChoiceFact| c.choice_id@ == id@, None); }
                    empty_indices()
                },
            },
            FactSite::Rule(id) => match self.rule_by_id(id.as_str()) {
                Some(x) => {
                    proof { lemma_first_match_is_first_where(self.spec_rules(), |x: RuleFact| x.rule_id@ == id@, Some(x)); }
                    x.effect_writes.as_slice()
                },
                None => {
                    proof { lemma_first_match_is_first_where(self.spec_rules(), |x: RuleFact| x.rule_id@ == id@, None); }
                    empty_indices()
                },
            },
            FactSite::Exit(_) => empty_indices(),
        }
    }

    /// The construct a site names, if any.
    pub fn resolve_site<'a>(&'a self, site: &FactSite) -> (r: Option<SiteOwner<'a>>)
        requires
            self.wf(),
        ensures
            match *site {
                FactSite::Choice(id) => match r {
                    Some(SiteOwner::Choice(c)) => is_first_match(self.spec_choices(), |c: ChoiceFact| c.choice_id@ == id@, Some(c)),
                    None => is_first_match(self.spec_choices(), |c: ChoiceFact| c.choice_id@ == id@, None),
                    _ => false,
                },
                FactSite::Exit(id) => match r {
                    Some(SiteOwner::Exit(e)) => is_first_match(self.spec_exits(), |e: ExitEdge| e.id_view() == id@, Some(e)),
                    None => is_first_match(self.spec_exits(), |e: ExitEdge| e.id_view() == id@, None),
                    _ => false,
                },
                FactSite::Rule(id) => match r {
                    Some(SiteOwner::Rule(x)) => is_first_match(self.spec_rules(), |x: RuleFact| x.rule_id@ == id@, Some(x)),
                    None => is_first_match(self.spec_rules(), |x: RuleFact| x.rule_id@ == id@, None),
                    _ => false,
                },
            },
    {
        match site {
            FactSite::Choice(id) => match self.choice_by_id(id.as_str()) {
                Some(c) => Some(SiteOwner::Choice(c)),
                None => None,
            },
            FactSite::Exit(id) => match self.exit_by_id(id.as_str()) {
                Some(e) => Some(SiteOwner::Exit(e)),
                None => None,
            },
            FactSite::Rule(id) => match self.rule_by_id(id.as_str()) {
                Some(x) => Some(SiteOwner::Rule(x)),
                None => None,
            },
        }
    }
}

fn empty_indices<'a>() -> (r: &'a [usize])
    ensures
        r@ == Seq::<usize>::empty(),
{
    &[]
}

proof fn lemma_first_match_is_first_where<T>(v: Seq<T>, p: spec_fn(T) -> bool, r: Option<&T>)
    requires
        is_first_match(v, p, r),
    ensures
        match r {
            Some(x) => first_where(v, p) is Some && v[first_where(v, p).unwrap()] == *x,
            None => first_where(v, p) is None,
        },
{
    lemma_first_where(v, p);
    if let Some(x) = r {
        let i = choose|i: int| 0 <= i < v.len() && v[i] == *x && p(v[i])
            && forall|j: int| 0 <= j < i ==> !p(#[trigger] v[j]);
        assert(p(v[i]));
        let w = first_where(v, p).unwrap();
        if w < i {
            assert(!p(v[w]));
        } else if w > i {
            assert(!p(v[i]));
        }
    } else {
        if first_where(v, p) is Some {
            let w = first_where(v, p).unwrap();
            assert(!p(v[w]));
        }
    }
}

/// The read indices of every site point into the reads.
pub proof fn lemma_site_read_indices_in_range(fs: FactSet, site: FactSite)
    requires
        fs.wf(),
    ensures
        indices_below(fs.site_read_indices(site), fs.spec_reads().len() as int),
{
    match site {
        FactSite::Choice(id) => {
            lemma_first_where(fs.spec_choices(), |c: ChoiceFact| c.choice_id@ == id@);
        },
        FactSite::Exit(id) => {
            lemma_first_where(fs.spec_exits(), |e: ExitEdge| e.id_view() == id@);
        },
        FactSite::Rule(id) => {
            lemma_first_where(fs.spec_rules(), |x: RuleFact| x.rule_id@ == id@);
        },
    }
}

// ── Key grouping ──

/// The (type, property) keys of the reads, in order.
pub open spec fn read_keys(reads: Seq<PropertyRead>) -> Seq<KeyView> {
    reads.map_values(|r: PropertyRead| r.key_view())
}

/// The (type, property) keys of the writes, in order.
pub open spec fn write_keys(writes: Seq<PropertyWrite>) -> Seq<KeyView> {
    writes.map_values(|w: PropertyWrite| w.key_view())
}

/// The positions in `ks` holding the key `k`, in increasing order.
pub open spec fn indices_with_key(ks: Seq<KeyView>, k: KeyView) -> Seq<int>
    decreases ks.len(),
{
    if ks.len() == 0 {
        Seq::empty()
    } else if ks.last() == k {
        indices_with_key(ks.drop_last(), k).push(ks.len() - 1)
    } else {
        indices_with_key(ks.drop_last(), k)
    }
}

/// The distinct keys of `ks`, in order of first occurrence.
pub open spec fn distinct_keys(ks: Seq<KeyView>) -> Seq<KeyView>
    decreases ks.len(),
{
    if ks.len() == 0 {
        Seq::empty()
    } else if distinct_keys(ks.drop_last()).contains(ks.last()) {
        distinct_keys(ks.drop_last())
    } else {
        distinct_keys(ks.drop_last()).push(ks.last())
    }
}

pub proof fn lemma_indices_with_key_step(ks: Seq<KeyView>, k: KeyView, i: int)
    requires
        0 <= i < ks.len(),
    ensures
        indices_with_key(ks.take(i + 1), k) == if ks[i] == k {
            indices_with_key(ks.take(i), k).push(i)
        } else {
            indices_with_key(ks.take(i), k)
        },
{
    assert(ks.take(i + 1).drop_last() == ks.take(i));
}

pub proof fn lemma_indices_with_key_props(ks: Seq<KeyView>, k: KeyView)
    ensures
        forall|m: int| 0 <= m < indices_with_key(ks, k).len() ==>
            0 <= #[trigger] indices_with_key(ks, k)[m] < ks.len() && ks[indices_with_key(ks, k)[m]] == k,
        forall|a: int, b: int| 0 <= a < b < indices_with_key(ks, k).len() ==>
            indices_with_key(ks, k)[a] < indices_with_key(ks, k)[b],
        (exists|i: int| 0 <= i < ks.len() && ks[i] == k) <==> indices_with_key(ks, k).len() > 0,
        forall|i: int| 0 <= i < ks.len() && ks[i] == k ==> indices_with_key(ks, k).contains(i),
    decreases ks.len(),
{
    if ks.len() > 0 {
        lemma_indices_with_key_props(ks.drop_last(), k);
        let prev = indices_with_key(ks.drop_last(), k);
        assert forall|i: int| 0 <= i < ks.len() && ks[i] == k implies indices_with_key(ks, k).contains(i) by {
            if i < ks.len() - 1 {
                assert(ks.drop_last()[i] == ks[i]);
                let m = choose|m: int| 0 <= m < prev.len() && prev[m] == i;
                assert(indices_with_key(ks, k)[m] == i);
            } else {
                assert(indices_with_key(ks, k)[prev.len() as int] == i);
            }
        }
        if exists|i: int| 0 <= i < ks.len() && ks[i] == k {
            let i = choose|i: int| 0 <= i < ks.len() && ks[i] == k;
            assert(indices_with_key(ks, k).contains(i));
        }
        if indices_with_key(ks, k).len() > 0 {
            let j = indices_with_key(ks, k)[0];
            assert(ks[j] == k);
        }
    }
}

// ── FactSetBuilder ──

/// Builder for a FactSet. Reads and writes receive their index on push;
/// choices, rules and exits may only refer to reads and writes pushed before.
pub struct FactSetBuilder {
    reads: Vec<PropertyRead>,
    writes: Vec<PropertyWrite>,
    exits: Vec<ExitEdge>,
    jumps: Vec<JumpEdge>,
    choices: Vec<ChoiceFact>,
    rules: Vec<RuleFact>,
}

impl FactSetBuilder {
    pub closed spec fn spec_reads(&self) -> Seq<PropertyRead> {
        self.reads@
    }

    pub closed spec fn spec_writes(&self) -> Seq<PropertyWrite> {
        self.writes@
    }

    pub closed spec fn spec_exits(&self) -> Seq<ExitEdge> {
        self.exits@
    }

    pub closed spec fn spec_jumps(&self) -> Seq<JumpEdge> {
        self.jumps@
    }

    pub closed spec fn spec_choices(&self) -> Seq<ChoiceFact> {
        self.choices@
    }

    pub closed spec fn spec_rules(&self) -> Seq<RuleFact> {
        self.rules@
    }

    pub open spec fn wf(&self) -> bool {
        facts_wf(
            self.spec_reads().len() as int,
            self.spec_writes().len() as int,
            self.spec_exits(),
            self.spec_choices(),
            self.spec_rules(),
        )
    }

    pub fn new() -> (b: Self)
        ensures
            b.wf(),
            b.spec_reads().len() == 0,
            b.spec_writes().len() == 0,
            b.spec_exits().len() == 0,
            b.spec_jumps().len() == 0,
            b.spec_choices().len() == 0,
            b.spec_rules().len() == 0,
    {
        FactSetBuilder {
            reads: Vec::new(),
            writes: Vec::new(),
            exits: Vec::new(),
            jumps: Vec::new(),
            choices: Vec::new(),
            rules: Vec::new(),
        }
    }

    /// Append a read; returns its index.
    pub fn push_read(&mut self, read: PropertyRead) -> (idx: usize)
        requires
            old(self).wf(),
        ensures
            final(self).wf(),
            idx == old(self).spec_reads().len(),
            final(self).spec_reads() == old(self).spec_reads().push(read),
            final(self).spec_writes() == old(self).spec_writes(),
            final(self).spec_exits() == old(self).spec_exits(),
            final(self).spec_jumps() == old(self).spec_jumps(),
            final(self).spec_choices() == old(self).spec_choices(),
            final(self).spec_rules() == old(self).spec_rules(),
    {
        let idx = self.reads.len();
        self.reads.push(read);
        proof { lemma_facts_wf_grow(self); }
        idx
    }

    /// Append a write; returns its index.
    pub fn push_write(&mut self, write: PropertyWrite) -> (idx: usize)
        requires
            old(self).wf(),
        ensures
            final(self).wf(),
            idx == old(self).spec_writes().len(),
            final(self).spec_writes() == old(self).spec_writes().push(write),
            final(self).spec_reads() == old(self).spec_reads(),
            final(self).spec_exits() == old(self).spec_exits(),
            final(self).spec_jumps() == old(self).spec_jumps(),
            final(self).spec_choices() == old(self).spec_choices(),
            final(self).spec_rules() == old(self).spec_rules(),
    {
        let idx = self.writes.len();
        self.writes.push(write);
        proof { lemma_facts_wf_grow(self); }
        idx
    }

    pub fn push_exit(&mut self, edge: ExitEdge)
        requires
            old(self).wf(),
            indices_below(edge.guard_reads@, old(self).spec_reads().len() as int),
        ensures
            final(self).wf(),
            final(self).spec_exits() == old(self).spec_exits().push(edge),
            final(self).spec_reads() == old(self).spec_reads(),
            final(self).spec_writes() == old(self).spec_writes(),
            final(self).spec_jumps() == old(self).spec_jumps(),
            final(self).spec_choices() == old(self).spec_choices(),
            final(self).spec_rules() == old(self).spec_rules(),
    {
        self.exits.push(edge);
    }

    pub fn push_jump(&mut self, edge: JumpEdge)
        requires
            old(self).wf(),
        ensures
            final(self).wf(),
            final(self).spec_jumps() == old(self).spec_jumps().push(edge),
            final(self).spec_reads() == old(self).spec_reads(),
            final(self).spec_writes() == old(self).spec_writes(),
            final(self).spec_exits() == old(self).spec_exits(),
            final(self).spec_choices() == old(self).spec_choices(),
            final(self).spec_rules() == old(self).spec_rules(),
    {
        self.jumps.push(edge);
    }

    pub fn push_choice(&mut self, choice: ChoiceFact)
        requires
            old(self).wf(),
            indices_below(choice.condition_reads@, old(self).spec_reads().len() as int),
            indices_below(choice.effect_writes@, old(self).spec_writes().len() as int),
        ensures
            final(self).wf(),
            final(self).spec_choices() == old(self).spec_choices().push(choice),
            final(self).spec_reads() == old(self).spec_reads(),
            final(self).spec_writes() == old(self).spec_writes(),
            final(self).spec_exits() == old(self).spec_exits(),
            final(self).spec_jumps() == old(self).spec_jumps(),
            final(self).spec_rules() == old(self).spec_rules(),
    {
        self.choices.push(choice);
    }

    pub fn push_rule(&mut self, rule: RuleFact)
        requires
            old(self).wf(),
            indices_below(rule.condition_reads@, old(self).spec_reads().len() as int),
            indices_below(rule.effect_writes@, old(self).spec_writes().len() as int),
        ensures
            final(self).wf(),
            final(self).spec_rules() == old(self).spec_rules().push(rule),
            final(self).spec_reads() == old(self).spec_reads(),
            final(self).spec_writes() == old(self).spec_writes(),
            final(self).spec_exits() == old(self).spec_exits(),
            final(self).spec_jumps() == old(self).spec_jumps(),
            final(self).spec_choices() == old(self).spec_choices(),
    {
        self.rules.push(rule);
    }

    /// Set guard reads on the first exit identified by location and exit name.
    pub fn set_exit_guard_reads(&mut self, from_loc: &str, exit_name: &str, reads: Vec<usize>)
        requires
            old(self).wf(),
            indices_below(reads@, old(self).spec_reads().len() as int),
        ensures
            final(self).wf(),
            final(self).spec_reads() == old(self).spec_reads(),
            final(self).spec_writes() == old(self).spec_writes(),
            final(self).spec_jumps() == old(self).spec_jumps(),
            final(self).spec_choices() == old(self).spec_choices(),
            final(self).spec_rules() == old(self).spec_rules(),
            final(self).spec_exits().len() == old(self).spec_exits().len(),
            match first_where(
                old(self).spec_exits(),
                |e: ExitEdge| e.from_location@ == from_loc@ && e.exit_name@ == exit_name@,
            ) {
                Some(i) => {
                    &&& 0 <= i < old(self).spec_exits().len()
                    &&& old(self).spec_exits()[i].from_location@ == from_loc@
                    &&& old(self).spec_exits()[i].exit_name@ == exit_name@
                    &&& final(self).spec_exits()[i].guard_reads@ == reads@
                    &&& final(self).spec_exits()[i].from_location == old(self).spec_exits()[i].from_location
                    &&& final(self).spec_exits()[i].to_location == old(self).spec_exits()[i].to_location
                    &&& final(self).spec_exits()[i].exit_name == old(self).spec_exits()[i].exit_name
                    &&& final(self).spec_exits()[i].is_conditional == old(self).spec_exits()[i].is_conditional
                    &&& final(self).spec_exits()[i].span == old(self).spec_exits()[i].span
                    &&& forall|j: int| 0 <= j < final(self).spec_exits().len() && j != i
                        ==> final(self).spec_exits()[j] == old(self).spec_exits()[j]
                },
                None => final(self).spec_exits() == old(self).spec_exits(),
            },
    {
        let ghost p = |e: ExitEdge| e.from_location@ == from_loc@ && e.exit_name@ == exit_name@;
        let found = find_exit_index(&self.exits, from_loc, exit_name);
        proof {
            lemma_first_where(self.exits@, p);
            if let Some(k) = found {
                assert(p(self.exits@[k as int]));
                let w = first_where(self.exits@, p).unwrap();
                if w < k {
                    assert(!p(self.exits@[w]));
                } else if w > k {
                    assert(!p(self.exits@[k as int]));
                }
            } else {
                if first_where(self.exits@, p) is Some {
                    let w = first_where(self.exits@, p).unwrap();
                    assert(!p(self.exits@[w]));
                }
            }
        }
        if let Some(k) = found {
            replace_guard_reads(&mut self.exits, k, reads);
        }
    }

    /// Whether an exit with this ID has been recorded.
    pub fn has_exit_id(&self, exit_id: &str) -> (b: bool)
        ensures
            b == exists|i: int| 0 <= i < self.spec_exits().len() && (#[trigger] self.spec_exits()[i]).id_view() == exit_id@,
    {
        let mut i: usize = 0;
        while i < self.exits.len()
            invariant
                i <= self.exits.len(),
                forall|j: int| 0 <= j < i ==> (#[trigger] self.exits@[j]).id_view() != exit_id@,
            decreases self.exits.len() - i,
        {
            let id = self.exits[i].exit_id();
            if str_equals(id.as_str(), exit_id) {
                assert(self.spec_exits()[i as int].id_view() == exit_id@);
                return true;
            }
            i += 1;
        }
        false
    }

    pub fn finish(self) -> (fs: FactSet)
        requires
            self.wf(),
        ensures
            fs.wf(),
            fs.spec_reads() == self.spec_reads(),
            fs.spec_writes() == self.spec_writes(),
            fs.spec_exits() == self.spec_exits(),
            fs.spec_jumps() == self.spec_jumps(),
            fs.spec_choices() == self.spec_choices(),
            fs.spec_rules() == self.spec_rules(),
    {
        FactSet {
            reads: self.reads,
            writes: self.writes,
            exits: self.exits,
            jumps: self.jumps,
            choices: self.choices,
            rules: self.rules,
        }
    }
}

fn find_exit_index(exits: &Vec<ExitEdge>, loc: &str, name: &str) -> (r: Option<usize>)
    ensures
        match r {
            Some(k) => k < exits@.len() && exits@[k as int].from_location@ == loc@
                && exits@[k as int].exit_name@ == name@
                && forall|j: int| 0 <= j < k ==> !((#[trigger] exits@[j]).from_location@ == loc@
                    && exits@[j].exit_name@ == name@),
            None => forall|j: int| 0 <= j < exits@.len() ==> !((#[trigger] exits@[j]).from_location@ == loc@
                && exits@[j].exit_name@ == name@),
        },
{
    let mut i: usize = 0;
    while i < exits.len()
        invariant
            i <= exits.len(),
            forall|j: int| 0 <= j < i ==> !((#[trigger] exits@[j]).from_location@ == loc@
                && exits@[j].exit_name@ == name@),
        decreases exits.len() - i,
    {
        if str_equals(exits[i].from_location.as_str(), loc) && str_equals(exits[i].exit_name.as_str(), name) {
            return Some(i);
        }
        i += 1;
    }
    None
}

fn replace_guard_reads(exits: &mut Vec<ExitEdge>, k: usize, reads: Vec<usize>)
    requires
        k < old(exits).len(),
    ensures
        final(exits).len() == old(exits).len(),
        final(exits)@[k as int].guard_reads == reads,
        final(exits)@[k as int].from_location == old(exits)@[k as int].from_location,
        final(exits)@[k as int].to_location == old(exits)@[k as int].to_location,
        final(exits)@[k as int].exit_name == old(exits)@[k as int].exit_name,
        final(exits)@[k as int].is_conditional == old(exits)@[k as int].is_conditional,
        final(exits)@[k as int].span == old(exits)@[k as int].span,
        forall|j: int| 0 <= j < final(exits)@.len() && j != k ==> final(exits)@[j] == old(exits)@[j],
{
    let old_edge = exits.remove(k);
    let edge = ExitEdge {
        from_location: old_edge.from_location,
        to_location: old_edge.to_location,
        exit_name: old_edge.exit_name,
        is_conditional: old_edge.is_conditional,
        guard_reads: reads,
        span: old_edge.span,
    };
    exits.insert(k, edge);
}

proof fn lemma_facts_wf_grow(b: &FactSetBuilder)
    requires
        facts_wf(b.reads@.len() - 1, b.writes@.len() as int, b.exits@, b.choices@, b.rules@)
            || facts_wf(b.reads@.len() as int, b.writes@.len() - 1, b.exits@, b.choices@, b.rules@),
    ensures
        b.wf(),
{
    assert forall|i: int| 0 <= i < b.exits@.len() implies
        indices_below((#[trigger] b.exits@[i]).guard_reads@, b.reads@.len() as int) by {
        let v = b.exits@[i].guard_reads@;
        assert(forall|k: int| 0 <= k < v.len() ==> (#[trigger] v[k] as int) < b.reads@.len());
    }
    assert forall|i: int| 0 <= i < b.choices@.len() implies
        indices_below((#[trigger] b.choices@[i]).condition_reads@, b.reads@.len() as int)
        && indices_below(b.choices@[i].effect_writes@, b.writes@.len() as int) by {
        let v = b.choices@[i].condition_reads@;
        let w = b.choices@[i].effect_writes@;
        assert(forall|k: int| 0 <= k < v.len() ==> (#[trigger] v[k] as int) < b.reads@.len());
        assert(forall|k: int| 0 <= k < w.len() ==> (#[trigger] w[k] as int) < b.writes@.len());
    }
    assert forall|i: int| 0 <= i < b.rules@.len() implies
        indices_below((#[trigger] b.rules@[i]).condition_reads@, b.reads@.len() as int)
        && indices_below(b.rules@[i].effect_writes@, b.writes@.len() as int) by {
        let v = b.rules@[i].condition_reads@;
        let w = b.rules@[i].effect_writes@;
        assert(forall|k: int| 0 <= k < v.len() ==> (#[trigger] v[k] as int) < b.reads@.len());
        assert(forall|k: int| 0 <= k < w.len() ==> (#[trigger] w[k] as int) < b.writes@.len());
    }
}

// ── Literal classification ──

/// The literal kind a value of the given property type is read as.
pub open spec fn literal_kind_of(pt: PropertyType) -> LiteralKind {
    match pt {
        PropertyType::Boolean => LiteralKind::Bool,
        PropertyType::Integer | PropertyType::Number => LiteralKind::Int,
        PropertyType::Enum => LiteralKind::Ident,
        PropertyType::String => LiteralKind::Str,
        _ => LiteralKind::Str,
    }
}

/// Classify a literal value's kind based on the resolved property type.
pub fn classify_literal(property_type: &PropertyType) -> (k: LiteralKind)
    ensures
        k == literal_kind_of(*property_type),
{
    match property_type {
        PropertyType::Boolean => LiteralKind::Bool,
        PropertyType::Integer | PropertyType::Number => LiteralKind::Int,
        PropertyType::Enum => LiteralKind::Ident,
        PropertyType::String => LiteralKind::Str,
        _ => LiteralKind::Str,
    }
}

/// The value kind recorded for a write: a set takes the property's literal
/// kind; an add or subtract is numeric when its operand parses as an
/// integer or a float, and unclassified otherwise.
pub open spec fn write_value_kind_of(op: WriteOp, value_expr: Seq<char>, pt: PropertyType) -> Option<LiteralKind> {
    match op {
        WriteOp::Assign => Some(literal_kind_of(pt)),
        _ => if spec_parse_i64(value_expr) is Some || is_float_text(value_expr) {
            Some(LiteralKind::Int)
        } else {
            None
        },
    }
}

/// Classify the value_kind for a PropertyWrite.
pub fn classify_write_value_kind(operator: &WriteOp, value_expr: &str, property_type: &PropertyType)
    -> (k: Option<LiteralKind>)
    ensures
        k == write_value_kind_of(*operator, value_expr@, *property_type),
{
    match operator {
        WriteOp::Assign => Some(classify_literal(property_type)),
        WriteOp::Add | WriteOp::Sub => {
            if parse_i64(value_expr).is_some() || is_float_literal(value_expr) {
                Some(LiteralKind::Int)
            } else {
                None
            }
        },
    }
}

// ── Operator and kind names ──

pub fn compare_op_str(op: &CompareOp) -> (s: &'static str)
    ensures
        s@ == compare_op_token(*op),
{
    proof {
        reveal_strlit("==");
        reveal_strlit("!=");
        reveal_strlit("<");
        reveal_strlit(">");
        reveal_strlit("<=");
        reveal_strlit(">=");
    }
    match op {
        CompareOp::Eq => "==",
        CompareOp::Ne => "!=",
        CompareOp::Lt => "<",
        CompareOp::Gt => ">",
        CompareOp::Le => "<=",
        CompareOp::Ge => ">=",
    }
}

pub fn write_op_str(op: &WriteOp) -> (s: &'static str)
    ensures
        s@ == write_op_token(*op),
{
    proof {
        reveal_strlit("=");
        reveal_strlit("+");
        reveal_strlit("-");
    }
    match op {
        WriteOp::Assign => "=",
        WriteOp::Add => "+",
        WriteOp::Sub => "-",
    }
}

/// The name of a literal kind in serialised facts.
pub open spec fn literal_kind_name(kind: LiteralKind) -> Seq<char> {
    match kind {
        LiteralKind::Bool => seq!['b', 'o', 'o', 'l'],
        LiteralKind::Int => seq!['i', 'n', 't'],
        LiteralKind::Str => seq!['s', 't', 'r'],
        LiteralKind::Ident => seq!['i', 'd', 'e', 'n', 't'],
    }
}

pub fn literal_kind_str(kind: &LiteralKind) -> (s: &'static str)
    ensures
        s@ == literal_kind_name(*kind),
{
    proof {
        reveal_strlit("bool");
        reveal_strlit("int");
        reveal_strlit("str");
        reveal_strlit("ident");
    }
    match kind {
        LiteralKind::Bool => "bool",
        LiteralKind::Int => "int",
        LiteralKind::Str => "str",
        LiteralKind::Ident => "ident",
    }
}

/// The token of an operator parses back to the same operator.
pub proof fn lemma_compare_op_token_roundtrip(op: CompareOp)
    ensures
        compare_op_of(compare_op_token(op)) == Some(op),
{
}

/// The token of a write operator parses back to the same operator.
pub proof fn lemma_write_op_token_roundtrip(op: WriteOp)
    ensures
        write_op_of(write_op_token(op)) == Some(op),
{
}

// ── PropertyDependencyIndex ──

/// `indexmap::IndexMap`, carried opaquely; its contents are reached
/// through the `dependency_*` wrappers below.
#[verifier::external_type_specification]
#[verifier::external_body]
#[verifier::reject_recursive_types(K)]
#[verifier::reject_recursive_types(V)]
#[verifier::reject_recursive_types(S)]
pub struct ExIndexMap<K, V, S>(IndexMap<K, V, S>);

/// The entries of a property-dependency map in their insertion order:
/// each key's text with its list of indices.
pub uninterp spec fn dependency_entries(m: IndexMap<PropertyKey, Vec<usize>>) -> Seq<(KeyView, Seq<usize>)>;

/// `IndexMap::new`: the new map is empty.
#[verifier::external_body]
fn dependency_map_new() -> (m: IndexMap<PropertyKey, Vec<usize>>)
    ensures
        dependency_entries(m) == Seq::<(KeyView, Seq<usize>)>::empty(),
{
    IndexMap::new()
}

/// `IndexMap::insert` of a key that no entry holds yet: the pair is
/// appended last in order (the documented behaviour for a new key).
#[verifier::external_body]
fn dependency_map_insert(m: &mut IndexMap<PropertyKey, Vec<usize>>, key: PropertyKey, value: Vec<usize>)
    requires
        forall|i: int| 0 <= i < dependency_entries(*old(m)).len() ==> (#[trigger] dependency_entries(*old(m))[i]).0 != key@,
    ensures
        dependency_entries(*final(m)) == dependency_entries(*old(m)).push((key@, value@)),
{
    m.insert(key, value);
}

/// `IndexMap::get`: the value of the entry whose key equals `key`
/// (`PropertyKey` equality is equality of both texts), or `None` when no
/// entry has that key.
#[verifier::external_body]
fn dependency_map_get<'a>(m: &'a IndexMap<PropertyKey, Vec<usize>>, key: &PropertyKey) -> (r: Option<&'a Vec<usize>>)
    ensures
        match r {
            Some(v) => exists|i: int| 0 <= i < dependency_entries(*m).len()
                && (#[trigger] dependency_entries(*m)[i]).0 == key@ && dependency_entries(*m)[i].1 == v@,
            None => forall|i: int| 0 <= i < dependency_entries(*m).len() ==> (#[trigger] dependency_entries(*m)[i]).0 != key@,
        },
{
    m.get(key)
}

/// `IndexMap::keys`, collected: the keys in insertion order.
#[verifier::external_body]
fn dependency_map_keys<'a>(m: &'a IndexMap<PropertyKey, Vec<usize>>) -> (r: Vec<&'a PropertyKey>)
    ensures
        r@.len() == dependency_entries(*m).len(),
        forall|i: int| 0 <= i < r@.len() ==> (#[trigger] r@[i])@ == dependency_entries(*m)[i].0,
{
    m.keys().collect()
}

/// Indices as `usize`.
pub open spec fn usize_seq(s: Seq<int>) -> Seq<usize> {
    s.map_values(|x: int| x as usize)
}

/// The grouping of `ks`: each distinct key, in order of first occurrence,
/// with the positions that hold it.
pub open spec fn groups_of(ks: Seq<KeyView>) -> Seq<(KeyView, Seq<usize>)> {
    distinct_keys(ks).map_values(|k: KeyView| (k, usize_seq(indices_with_key(ks, k))))
}

pub proof fn lemma_distinct_keys(ks: Seq<KeyView>)
    ensures
        forall|k: KeyView| distinct_keys(ks).contains(k) <==> ks.contains(k),
        forall|a: int, b: int| 0 <= a < b < distinct_keys(ks).len() ==> distinct_keys(ks)[a] != distinct_keys(ks)[b],
    decreases ks.len(),
{
    if ks.len() > 0 {
        lemma_distinct_keys(ks.drop_last());
        assert forall|k: KeyView| distinct_keys(ks).contains(k) <==> ks.contains(k) by {
            if ks.contains(k) {
                let i = choose|i: int| 0 <= i < ks.len() && ks[i] == k;
                if i < ks.len() - 1 {
                    assert(ks.drop_last()[i] == k);
                    assert(ks.drop_last().contains(k));
                    let d = distinct_keys(ks.drop_last());
                    let m = choose|m: int| 0 <= m < d.len() && d[m] == k;
                    if !d.contains(ks.last()) {
                        assert(distinct_keys(ks)[m] == k);
                    }
                } else {
                    let d = distinct_keys(ks.drop_last());
                    if !d.contains(ks.last()) {
                        assert(distinct_keys(ks)[d.len() as int] == k);
                    }
                }
            }
            if distinct_keys(ks).contains(k) {
                let d = distinct_keys(ks.drop_last());
                let m = choose|m: int| 0 <= m < distinct_keys(ks).len() && distinct_keys(ks)[m] == k;
                if m < d.len() {
                    assert(d[m] == k);
                    assert(d.contains(k));
                    assert(ks.drop_last().contains(k));
                    let i = choose|i: int| 0 <= i < ks.drop_last().len() && ks.drop_last()[i] == k;
                    assert(ks[i] == k);
                } else {
                    assert(ks[ks.len() - 1] == k);
                }
            }
        }
    }
}

impl PropertyDependencyIndex {
    #[verifier::type_invariant]
    spec fn inv(self) -> bool {
        &&& dependency_entries(self.readers) == groups_of(self.read_keys@)
        &&& dependency_entries(self.writers) == groups_of(self.write_keys@)
    }

    /// The read keys the index was built from.
    pub closed spec fn spec_read_keys(&self) -> Seq<KeyView> {
        self.read_keys@
    }

    /// The write keys the index was built from.
    pub closed spec fn spec_write_keys(&self) -> Seq<KeyView> {
        self.write_keys@
    }

    /// Build the index from a FactSet.
    pub fn build(fact_set: &FactSet) -> (idx: Self)
        ensures
            idx.spec_read_keys() == read_keys(fact_set.spec_reads()),
            idx.spec_write_keys() == write_keys(fact_set.spec_writes()),
    {
        let rk: Vec<PropertyKey> = read_key_list(fact_set.reads());
        let wk: Vec<PropertyKey> = write_key_list(fact_set.writes());
        let readers = group_keys(&rk);
        let writers = group_keys(&wk);
        PropertyDependencyIndex {
            readers,
            writers,
            read_keys: Ghost(read_keys(fact_set.spec_reads())),
            write_keys: Ghost(write_keys(fact_set.spec_writes())),
        }
    }

    /// All read indices for a given (type, property) pair, in order.
    pub fn reads_of(&self, key: &PropertyKey) -> (r: &[usize])
        ensures
            r@ == usize_seq(indices_with_key(self.spec_read_keys(), key@)),
    {
        proof {
            use_type_invariant(self);
        }
        lookup_group(&self.readers, key, Ghost(self.read_keys@))
    }

    /// All write indices for a given property key, in order.
    pub fn writes_of(&self, key: &PropertyKey) -> (r: &[usize])
        ensures
            r@ == usize_seq(indices_with_key(self.spec_write_keys(), key@)),
    {
        proof {
            use_type_invariant(self);
        }
        lookup_group(&self.writers, key, Ghost(self.write_keys@))
    }

    /// All property keys that are read anywhere, in order of first read.
    pub fn read_properties(&self) -> (r: Vec<&PropertyKey>)
        ensures
            r@.map_values(|k: &PropertyKey| k@) == distinct_keys(self.spec_read_keys()),
    {
        proof {
            use_type_invariant(self);
        }
        let r = dependency_map_keys(&self.readers);
        assert(r@.map_values(|k: &PropertyKey| k@) =~= distinct_keys(self.read_keys@));
        r
    }

    /// All property keys that are written anywhere, in order of first write.
    pub fn written_properties(&self) -> (r: Vec<&PropertyKey>)
        ensures
            r@.map_values(|k: &PropertyKey| k@) == distinct_keys(self.spec_write_keys()),
    {
        proof {
            use_type_invariant(self);
        }
        let r = dependency_map_keys(&self.writers);
        assert(r@.map_values(|k: &PropertyKey| k@) =~= distinct_keys(self.write_keys@));
        r
    }
}

fn lookup_group<'a>(m: &'a IndexMap<PropertyKey, Vec<usize>>, key: &PropertyKey, Ghost(ks): Ghost<Seq<KeyView>>) -> (r: &'a [usize])
    requires
        dependency_entries(*m) == groups_of(ks),
    ensures
        r@ == usize_seq(indices_with_key(ks, key@)),
{
    match dependency_map_get(m, key) {
        Some(v) => v.as_slice(),
        None => {
            proof {
                lemma_distinct_keys(ks);
                lemma_indices_with_key_props(ks, key@);
                if indices_with_key(ks, key@).len() > 0 {
                    let i = indices_with_key(ks, key@)[0];
                    assert(ks[i] == key@);
                    assert(ks.contains(key@));
                    assert(distinct_keys(ks).contains(key@));
                    let m2 = choose|m2: int| 0 <= m2 < distinct_keys(ks).len() && distinct_keys(ks)[m2] == key@;
                    assert(dependency_entries(*m)[m2].0 == key@);
                }
                assert(usize_seq(indices_with_key(ks, key@)) =~= Seq::<usize>::empty());
            }
            empty_indices()
        },
    }
}

/// The keys of the reads, in order.
fn read_key_list(reads: &[PropertyRead]) -> (r: Vec<PropertyKey>)
    ensures
        r@.map_values(|k: PropertyKey| k@) == read_keys(reads@),
{
    let mut r: Vec<PropertyKey> = Vec::new();
    let mut i: usize = 0;
    while i < reads.len()
        invariant
            i <= reads.len(),
            r@.map_values(|k: PropertyKey| k@) == read_keys(reads@.take(i as int)),
        decreases reads.len() - i,
    {
        r.push(reads[i].key());
        assert(read_keys(reads@.take(i + 1)) =~= read_keys(reads@.take(i as int)).push(reads@[i as int].key_view()));
        assert(r@.map_values(|k: PropertyKey| k@) =~= read_keys(reads@.take(i + 1)));
        i += 1;
    }
    assert(reads@.take(reads.len() as int) == reads@);
    r
}

/// The keys of the writes, in order.
fn write_key_list(writes: &[PropertyWrite]) -> (r: Vec<PropertyKey>)
    ensures
        r@.map_values(|k: PropertyKey| k@) == write_keys(writes@),
{
    let mut r: Vec<PropertyKey> = Vec::new();
    let mut i: usize = 0;
    while i < writes.len()
        invariant
            i <= writes.len(),
            r@.map_values(|k: PropertyKey| k@) == write_keys(writes@.take(i as int)),
        decreases writes.len() - i,
    {
        r.push(writes[i].key());
        assert(write_keys(writes@.take(i + 1)) =~= write_keys(writes@.take(i as int)).push(writes@[i as int].key_view()));
        assert(r@.map_values(|k: PropertyKey| k@) =~= write_keys(writes@.take(i + 1)));
        i += 1;
    }
    assert(writes@.take(writes.len() as int) == writes@);
    r
}

fn key_equals(a: &PropertyKey, b: &PropertyKey) -> (r: bool)
    ensures
        r == (a@ == b@),
{
    str_equals(a.entity_type.as_str(), b.entity_type.as_str()) && str_equals(a.property.as_str(), b.property.as_str())
}

fn contains_key(v: &Vec<PropertyKey>, k: &PropertyKey) -> (r: bool)
    ensures
        r == v@.map_values(|x: PropertyKey| x@).contains(k@),
{
    let ghost vs = v@.map_values(|x: PropertyKey| x@);
    let mut i: usize = 0;
    while i < v.len()
        invariant
            i <= v.len(),
            vs == v@.map_values(|x: PropertyKey| x@),
            forall|j: int| 0 <= j < i ==> vs[j] != k@,
        decreases v.len() - i,
    {
        if key_equals(&v[i], k) {
            assert(vs[i as int] == k@);
            return true;
        }
        i += 1;
    }
    false
}

/// The positions of `k` in `keys`.
fn positions_of(keys: &Vec<PropertyKey>, k: &PropertyKey) -> (r: Vec<usize>)
    ensures
        r@ == usize_seq(indices_with_key(keys@.map_values(|x: PropertyKey| x@), k@)),
{
    let ghost ks = keys@.map_values(|x: PropertyKey| x@);
    let mut r: Vec<usize> = Vec::new();
    let mut i: usize = 0;
    while i < keys.len()
        invariant
            i <= keys.len(),
            ks == keys@.map_values(|x: PropertyKey| x@),
            r@ == usize_seq(indices_with_key(ks.take(i as int), k@)),
        decreases keys.len() - i,
    {
        proof {
            lemma_indices_with_key_step(ks, k@, i as int);
        }
        if key_equals(&keys[i], k) {
            r.push(i);
        }
        assert(r@ =~= usize_seq(indices_with_key(ks.take(i + 1), k@)));
        i += 1;
    }
    assert(ks.take(keys.len() as int) == ks);
    r
}

/// An IndexMap from each distinct key of `keys` (first occurrence order)
/// to the positions holding it.
fn group_keys(keys: &Vec<PropertyKey>) -> (m: IndexMap<PropertyKey, Vec<usize>>)
    ensures
        dependency_entries(m) == groups_of(keys@.map_values(|x: PropertyKey| x@)),
{
    let ghost ks = keys@.map_values(|x: PropertyKey| x@);
    // Distinct keys in order of first occurrence.
    let mut distinct: Vec<PropertyKey> = Vec::new();
    let mut i: usize = 0;
    while i < keys.len()
        invariant
            i <= keys.len(),
            ks == keys@.map_values(|x: PropertyKey| x@),
            distinct@.map_values(|x: PropertyKey| x@) == distinct_keys(ks.take(i as int)),
        decreases keys.len() - i,
    {
        assert(ks.take(i + 1).drop_last() == ks.take(i as int));
        assert(ks.take(i + 1).last() == keys@[i as int]@);
        if !contains_key(&distinct, &keys[i]) {
            distinct.push(keys[i].clone());
            assert(distinct@.map_values(|x: PropertyKey| x@) =~= distinct_keys(ks.take(i as int)).push(keys@[i as int]@));
        }
        i += 1;
    }
    assert(ks.take(keys.len() as int) == ks);
    proof {
        lemma_distinct_keys(ks);
    }
    let ghost dk = distinct_keys(ks);
    let mut m = dependency_map_new();
    let mut j: usize = 0;
    while j < distinct.len()
        invariant
            j <= distinct.len(),
            ks == keys@.map_values(|x: PropertyKey| x@),
            dk == distinct_keys(ks),
            distinct@.map_values(|x: PropertyKey| x@) == dk,
            forall|a: int, b: int| 0 <= a < b < dk.len() ==> dk[a] != dk[b],
            dependency_entries(m) == groups_of(ks).take(j as int),
        decreases distinct.len() - j,
    {
        let k = distinct[j].clone();
        let positions = positions_of(keys, &k);
        assert(dk[j as int] == k@);
        assert forall|i: int| 0 <= i < dependency_entries(m).len() implies (#[trigger] dependency_entries(m)[i]).0 != k@ by {
            assert(dependency_entries(m)[i].0 == dk[i]);
        }
        dependency_map_insert(&mut m, k, positions);
        assert(dependency_entries(m) =~= groups_of(ks).take(j + 1));
        j += 1;
    }
    assert(groups_of(ks).take(distinct.len() as int) =~= groups_of(ks));
    m
}

/// Index mapping (type, property) pairs to their read and write sites.
/// Built from the FactSet as a derived secondary index.
pub struct PropertyDependencyIndex {
    readers: IndexMap<PropertyKey, Vec<usize>>,
    writers: IndexMap<PropertyKey, Vec<usize>>,
    read_keys: Ghost<Seq<KeyView>>,
    write_keys: Ghost<Seq<KeyView>>,
}

/// A span by value, for comparing and hashing source positions.
#[derive(Debug, Clone, PartialEq, Eq, Hash)]
pub struct SpanKey {
    pub file: crate::span::FilePath,
    pub start_line: u32,
    pub start_col: u32,
    pub end_line: u32,
    pub end_col: u32,
}

} // verus!
