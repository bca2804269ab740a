//! VALIDATE helpers that read only the AST and property types:
//! type-keyword recognition, operator checks, and choice nesting depth.
//!
//! Diagnostic code range: URD400–URD499

use vstd::prelude::*;
use crate::ast::{Choice, ContentNode};
use crate::diagnostics::{
    appended, lemma_appended_empty, lemma_appended_trans, DiagnosticCollector, PlainDiag, Severity,
};
use crate::graph::{MAX_CHOICE_NESTING_DEPTH, WARN_CHOICE_NESTING_DEPTH};
use crate::span::{Span, span_view};
use crate::symbol_table::PropertyType;
use crate::text::{chars_of, decimal, decimal_chars, push_chars, push_str, str_equals, string_from_chars};

verus! {

broadcast use vstd::string::group_string_axioms;

/// The keyword a property type is written with in messages.
pub open spec fn property_type_name(pt: PropertyType) -> Seq<char> {
    match pt {
        PropertyType::Boolean => "boolean"@,
        PropertyType::Integer => "integer"@,
        PropertyType::Number => "number"@,
        PropertyType::String => "string"@,
        PropertyType::Enum => "enum"@,
        PropertyType::Ref => "ref"@,
        PropertyType::List => "list"@,
    }
}

/// A property type's name reads back as that type, so distinct types have
/// distinct names.
pub proof fn lemma_property_type_round_trip(pt: PropertyType)
    ensures
        crate::link::property_type_of(property_type_name(pt)) == pt,
{
    reveal_strlit("boolean");
    reveal_strlit("bool");
    reveal_strlit("integer");
    reveal_strlit("int");
    reveal_strlit("number");
    reveal_strlit("num");
    reveal_strlit("string");
    reveal_strlit("enum");
    reveal_strlit("ref");
    reveal_strlit("list");
    let n = property_type_name(pt);
    // Names of other keywords differ from `n` in length or in the first character.
    assert(n[0] == 'b' ==> n == "boolean"@);
    if n != "bool"@ && n != "boolean"@ {
        assert(n != "int"@ ==> n.len() != 3 || n[0] != 'i');
        assert(n != "integer"@ ==> n.len() != 7 || n[0] != 'i');
        assert(n != "num"@ ==> n.len() != 3 || n[0] != 'n');
        assert(n != "number"@ ==> n.len() != 6 || n[0] != 'n');
        assert(n != "enum"@ ==> n.len() != 4 || n[0] != 'e');
        assert(n != "ref"@ ==> n.len() != 3 || n[0] != 'r');
        assert(n != "list"@ ==> n.len() != 4 || n[0] != 'l');
    }
}

/// Format a PropertyType for diagnostic messages.
pub fn format_property_type(pt: &PropertyType) -> (s: &'static str)
    ensures
        s@ == property_type_name(*pt),
{
    match pt {
        PropertyType::Boolean => "boolean",
        PropertyType::Integer => "integer",
        PropertyType::Number => "number",
        PropertyType::String => "string",
        PropertyType::Enum => "enum",
        PropertyType::Ref => "ref",
        PropertyType::List => "list",
    }
}

/// Context for value type-checking — determines which diagnostic codes to use.
#[derive(Debug, Clone, Copy, PartialEq, Eq, Structural)]
pub enum CheckContext {
    /// Entity property override: uses URD402 for enum mismatches.
    Override,
    /// Type property default: uses URD413 for all mismatches.
    Default,
    /// Condition or effect: uses URD401 for all mismatches.
    ConditionOrEffect,
}

/// The type keywords that a property declaration may use.
pub open spec fn recognised_type(s: Seq<char>) -> bool {
    ||| s == "bool"@ || s == "boolean"@
    ||| s == "int"@ || s == "integer"@
    ||| s == "num"@ || s == "number"@
    ||| s == "str"@ || s == "string"@
    ||| s == "enum"@ || s == "ref"@ || s == "list"@
}

/// Check whether a raw type string is a recognised type name.
pub fn is_recognised_type(s: &str) -> (b: bool)
    ensures
        b == recognised_type(s@),
{
    str_equals(s, "bool") || str_equals(s, "boolean")
        || str_equals(s, "int") || str_equals(s, "integer")
        || str_equals(s, "num") || str_equals(s, "number")
        || str_equals(s, "str") || str_equals(s, "string")
        || str_equals(s, "enum") || str_equals(s, "ref") || str_equals(s, "list")
}

/// The ordering operators, which only numeric properties accept.
pub open spec fn is_ordering_operator(op: Seq<char>) -> bool {
    op == "<"@ || op == ">"@ || op == "<="@ || op == ">="@
}

pub open spec fn msg_bad_operator(op: Seq<char>, prop_name: Seq<char>, pt: PropertyType) -> Seq<char> {
    "Operator '"@ + op + "' is not valid for property '"@ + prop_name + "' of type '"@
        + property_type_name(pt) + "'. Use == or != for non-numeric types."@
}

/// What checking a comparison operator against a property type reports.
pub open spec fn operator_report(op: Seq<char>, prop_name: Seq<char>, pt: PropertyType, span: Span) -> Seq<PlainDiag> {
    if is_ordering_operator(op) && pt != PropertyType::Integer && pt != PropertyType::Number {
        seq![(Severity::Error, "URD420"@, msg_bad_operator(op, prop_name, pt), span_view(span))]
    } else {
        Seq::empty()
    }
}

/// Check that a comparison operator suits the property's type: `==` and
/// `!=` suit every type, the ordering operators only integers and numbers
/// (URD420 otherwise).
pub fn validate_operator(
    operator: &str,
    prop_name: &str,
    prop_type: PropertyType,
    span: &Span,
    diagnostics: &mut DiagnosticCollector,
)
    ensures
        appended(final(diagnostics)@, old(diagnostics)@, operator_report(operator@, prop_name@, prop_type, *span)),
{
    proof { lemma_appended_empty(diagnostics@); }
    if str_equals(operator, "==") || str_equals(operator, "!=") {
        proof {
            reveal_strlit("==");
            reveal_strlit("!=");
            reveal_strlit("<");
            reveal_strlit(">");
            reveal_strlit("<=");
            reveal_strlit(">=");
            assert("=="@[0] == '=' && "!="@[0] == '!' && "<="@[0] == '<' && ">="@[0] == '>');
            assert("=="@.len() == 2 && "!="@.len() == 2 && "<"@.len() == 1 && ">"@.len() == 1);
            assert(operator@[0] == '=' || operator@[0] == '!');
            assert(!is_ordering_operator(operator@));
        }
        return;
    }
    let ordering = str_equals(operator, "<") || str_equals(operator, ">")
        || str_equals(operator, "<=") || str_equals(operator, ">=");
    if ordering && prop_type != PropertyType::Integer && prop_type != PropertyType::Number {
        let mut m = chars_of("Operator '");
        push_str(&mut m, operator);
        push_str(&mut m, "' is not valid for property '");
        push_str(&mut m, prop_name);
        push_str(&mut m, "' of type '");
        push_str(&mut m, format_property_type(&prop_type));
        push_str(&mut m, "'. Use == or != for non-numeric types.");
        let message = string_from_chars(m);
        let ghost before = diagnostics@;
        diagnostics.error("URD420", message, span.clone());
        proof {
            let added = operator_report(operator@, prop_name@, prop_type, *span);
            assert(diagnostics@.take(before.len() as int) == before);
            assert(diagnostics@[before.len() as int] == diagnostics@.last());
        }
    }
}

pub open spec fn msg_nesting(depth: nat, line: nat) -> Seq<char> {
    "Nesting depth "@ + decimal(depth) + " at line "@ + decimal(line) + "."@
}

/// What a choice's own depth reports: an error from depth 4, a warning at
/// depth 3, nothing above that.
pub open spec fn depth_report(c: Choice) -> Seq<PlainDiag> {
    let depth = c.indent_level as nat;
    let msg = msg_nesting(depth, c.span.start_line as nat);
    if depth >= MAX_CHOICE_NESTING_DEPTH {
        seq![(Severity::Error, "URD410"@, msg, span_view(c.span))]
    } else if depth >= WARN_CHOICE_NESTING_DEPTH {
        seq![(Severity::Warning, "URD410"@, msg, span_view(c.span))]
    } else {
        Seq::empty()
    }
}

/// The URD410 diagnostics for a content node: each choice reports its own
/// depth, then those of its nested content; exits pass through to their
/// children; every other node reports nothing.
pub open spec fn nesting_report(node: ContentNode) -> Seq<PlainDiag>
    decreases node, 1int,
{
    match node {
        ContentNode::Choice(c) => depth_report(c) + nesting_report_all(c.content@),
        ContentNode::ExitDeclaration(e) => nesting_report_all(e.children@),
        _ => Seq::empty(),
    }
}

/// The reports of a list of nodes, in order.
pub open spec fn nesting_report_all(nodes: Seq<ContentNode>) -> Seq<PlainDiag>
    decreases nodes, 0int,
{
    if nodes.len() == 0 {
        Seq::empty()
    } else {
        nesting_report_all(nodes.subrange(0, nodes.len() - 1)) + nesting_report(nodes[nodes.len() - 1])
    }
}

fn nesting_message(depth: usize, line: u32) -> (m: String)
    ensures
        m@ == msg_nesting(depth as nat, line as nat),
{
    let mut v = chars_of("Nesting depth ");
    let d = decimal_chars(depth as u64);
    push_chars(&mut v, &d);
    push_str(&mut v, " at line ");
    let l = decimal_chars(line as u64);
    push_chars(&mut v, &l);
    push_str(&mut v, ".");
    string_from_chars(v)
}

/// Report choices nested too deeply (URD410), walking into choice content
/// and exit children.
pub fn check_nesting(node: &ContentNode, diagnostics: &mut DiagnosticCollector)
    ensures
        appended(final(diagnostics)@, old(diagnostics)@, nesting_report(*node)),
    decreases node, 1int,
{
    match node {
        ContentNode::Choice(choice) => {
            let ghost start = diagnostics@;
            proof { lemma_appended_empty(diagnostics@); }
            let depth = choice.indent_level;
            if depth >= MAX_CHOICE_NESTING_DEPTH {
                let message = nesting_message(depth, choice.span.start_line);
                diagnostics.error("URD410", message, choice.span.clone());
                proof {
                    assert(diagnostics@.take(start.len() as int) == start);
                    assert(diagnostics@[start.len() as int] == diagnostics@.last());
                }
            } else if depth >= WARN_CHOICE_NESTING_DEPTH {
                let message = nesting_message(depth, choice.span.start_line);
                diagnostics.warning("URD410", message, choice.span.clone());
                proof {
                    assert(diagnostics@.take(start.len() as int) == start);
                    assert(diagnostics@[start.len() as int] == diagnostics@.last());
                }
            }
            let ghost mid = diagnostics@;
            check_nesting_all(&choice.content, diagnostics);
            proof {
                lemma_appended_trans(start, mid, diagnostics@, depth_report(*choice), nesting_report_all(choice.content@));
            }
        },
        ContentNode::ExitDeclaration(exit) => {
            check_nesting_all(&exit.children, diagnostics);
        },
        _ => {
            proof { lemma_appended_empty(diagnostics@); }
        },
    }
}

pub(crate) fn check_nesting_all(nodes: &Vec<ContentNode>, diagnostics: &mut DiagnosticCollector)
    ensures
        appended(final(diagnostics)@, old(diagnostics)@, nesting_report_all(nodes@)),
    decreases nodes@, 0int,
{
    let ghost start = diagnostics@;
    proof {
        lemma_appended_empty(diagnostics@);
        assert(nodes@.subrange(0, 0) =~= Seq::<ContentNode>::empty());
    }
    let mut i: usize = 0;
    while i < nodes.len()
        invariant
            i <= nodes@.len(),
            appended(diagnostics@, start, nesting_report_all(nodes@.subrange(0, i as int))),
        decreases nodes@.len() - i,
    {
        let ghost before = diagnostics@;
        proof {
            assert(decreases_to!(nodes@ => nodes@[i as int]));
        }
        check_nesting(&nodes[i], diagnostics);
        proof {
            let pre = nodes@.subrange(0, i as int);
            let next = nodes@.subrange(0, i + 1);
            assert(next.subrange(0, next.len() - 1) =~= pre);
            assert(next[next.len() - 1] == nodes@[i as int]);
            lemma_appended_trans(start, before, diagnostics@, nesting_report_all(pre), nesting_report(nodes@[i as int]));
        }
        i += 1;
    }
    proof {
        assert(nodes@.subrange(0, nodes@.len() as int) =~= nodes@);
    }
}

} // verus!
