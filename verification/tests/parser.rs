use urd_compiler::ast::{ConditionExpr, ContentNode, EffectType};
use urd_compiler::content::parse_content;
use urd_compiler::diagnostics::DiagnosticCollector;
use urd_compiler::parse::Parser;

fn parse(src: &str) -> (Vec<ContentNode>, DiagnosticCollector, Parser) {
    let mut parser = Parser::new("test.urd.md", src);
    let mut diags = DiagnosticCollector::new();
    let nodes = parse_content(&mut parser, 0, &mut diags);
    (nodes, diags, parser)
}

#[test]
fn splits_lines_and_strips_carriage_returns() {
    let p = Parser::new("f.urd.md", "a\r\nb\n\nc");
    assert_eq!(p.lines.len(), 4);
    let texts: Vec<String> = p.lines.iter().map(|l| l.text.iter().collect()).collect();
    assert_eq!(texts, vec!["a", "b", "", "c"]);
    assert_eq!(p.lines[3].line_number, 4);
}

#[test]
fn heading_speech_choice_and_jump() {
    let src = "# Tavern\n\n@arina: Hello there // note\n* Ask -> greet\n  > @arina.mood = happy\n-> end";
    let (nodes, diags, parser) = parse(src);
    assert!(diags.is_empty());
    assert_eq!(parser.current_line, 6);
    assert_eq!(nodes.len(), 4);
    match &nodes[0] {
        ContentNode::LocationHeading(h) => {
            assert_eq!(h.display_name, "Tavern");
            assert_eq!((h.span.start_line, h.span.start_col, h.span.end_line, h.span.end_col), (1, 1, 1, 9));
            assert_eq!(h.span.file, "test.urd.md");
        }
        other => panic!("unexpected {:?}", other),
    }
    match &nodes[1] {
        ContentNode::EntitySpeech(s) => {
            assert_eq!(s.entity_ref, "arina");
            assert_eq!(s.text, "Hello there");
            assert!(s.annotation.is_none());
        }
        other => panic!("unexpected {:?}", other),
    }
    match &nodes[2] {
        ContentNode::Choice(c) => {
            assert!(!c.sticky);
            assert_eq!(c.label, "Ask");
            assert_eq!(c.target.as_deref(), Some("greet"));
            assert_eq!(c.target_type, None);
            assert_eq!(c.indent_level, 0);
            assert_eq!(c.content.len(), 1);
            match &c.content[0] {
                ContentNode::Effect(e) => {
                    assert_eq!(e.indent_level, 1);
                    match &e.effect_type {
                        EffectType::Assign { target_prop, operator, value_expr } => {
                            assert_eq!(target_prop, "@arina.mood");
                            assert_eq!(operator, "=");
                            assert_eq!(value_expr, "happy");
                        }
                        other => panic!("unexpected {:?}", other),
                    }
                    assert_eq!(e.span.start_col, 3);
                }
                other => panic!("unexpected {:?}", other),
            }
        }
        other => panic!("unexpected {:?}", other),
    }
    match &nodes[3] {
        ContentNode::Jump(j) => {
            assert_eq!(j.target, "end");
            assert!(!j.is_exit_qualified);
        }
        other => panic!("unexpected {:?}", other),
    }
}

#[test]
fn readme_scene_parses() {
    let src = "# The Rusty Anchor\nA low-ceilinged tavern thick with pipe smoke.\n[@arina]\n\n== topics\n@arina: What'll it be, stranger?\n\n+ Ask about the harbour\n  @arina: Quiet today. Too quiet.\n  > @arina.trust + 5\n  -> topics\n\n* Ask about the missing ship\n  ? @arina.trust > 50\n  @arina: The Selene didn't sink. She was taken.\n\n  ? @arina.trust <= 50\n  @arina: I don't know what you're talking about.\n  -> topics\n\n* Leave -> harbour\n\n@arina: Suit yourself. I've got glasses to clean.\n";
    let (nodes, diags, _) = parse(src);
    assert!(diags.is_empty());
    let kinds: Vec<&str> = nodes
        .iter()
        .map(|n| match n {
            ContentNode::LocationHeading(_) => "location",
            ContentNode::Prose(_) => "prose",
            ContentNode::EntityPresence(_) => "presence",
            ContentNode::SectionLabel(_) => "section",
            ContentNode::EntitySpeech(_) => "speech",
            ContentNode::Choice(_) => "choice",
            _ => "other",
        })
        .collect();
    assert_eq!(kinds, vec!["location", "prose", "presence", "section", "speech", "choice", "choice", "choice", "speech"]);
    match &nodes[2] {
        ContentNode::EntityPresence(p) => {
            assert_eq!(p.entity_refs, vec!["arina".to_string()]);
            assert_eq!(p.annotations.len(), 1);
        }
        _ => unreachable!(),
    }
    match &nodes[5] {
        ContentNode::Choice(c) => {
            assert!(c.sticky);
            assert_eq!(c.label, "Ask about the harbour");
            assert_eq!(c.content.len(), 3);
            match &c.content[1] {
                ContentNode::Effect(e) => match &e.effect_type {
                    EffectType::Assign { target_prop, operator, value_expr } => {
                        assert_eq!((target_prop.as_str(), operator.as_str(), value_expr.as_str()), ("@arina.trust", "+", "5"));
                    }
                    other => panic!("unexpected {:?}", other),
                },
                other => panic!("unexpected {:?}", other),
            }
        }
        _ => unreachable!(),
    }
    match &nodes[6] {
        ContentNode::Choice(c) => {
            assert_eq!(c.content.len(), 5);
            match &c.content[0] {
                ContentNode::Condition(cond) => match &cond.expr {
                    ConditionExpr::PropertyComparison(p) => {
                        assert_eq!(p.entity_ref, "arina");
                        assert_eq!(p.property, "trust");
                        assert_eq!(p.operator, ">");
                        assert_eq!(p.value, "50");
                    }
                    other => panic!("unexpected {:?}", other),
                },
                other => panic!("unexpected {:?}", other),
            }
        }
        _ => unreachable!(),
    }
    match &nodes[7] {
        ContentNode::Choice(c) => {
            assert_eq!(c.label, "Leave");
            assert_eq!(c.target.as_deref(), Some("harbour"));
            assert!(c.content.is_empty());
        }
        _ => unreachable!(),
    }
}

#[test]
fn tab_is_reported_each_time_the_line_is_read() {
    let (nodes, diags, _) = parse("\t# Title");
    match &nodes[0] {
        ContentNode::LocationHeading(h) => assert_eq!(h.display_name, "Title"),
        other => panic!("unexpected {:?}", other),
    }
    assert_eq!(diags.len(), 2);
    for d in diags.all() {
        assert_eq!(d.code, "URD102");
        assert_eq!(d.message, "Tab character found at line 1, column 1. Use exactly two spaces per indent level.");
        assert_eq!((d.span.start_col, d.span.end_col), (1, 2));
    }
}

#[test]
fn malformed_heading_is_an_error_node() {
    let (nodes, diags, _) = parse("#Bad");
    match &nodes[0] {
        ContentNode::ErrorNode(e) => {
            assert_eq!(e.raw_text, "#Bad");
            assert_eq!(e.attempted_rule, None);
        }
        other => panic!("unexpected {:?}", other),
    }
    assert_eq!(diags.len(), 1);
    assert_eq!(diags.all()[0].code, "URD112");
    assert_eq!(diags.all()[0].message, "Unrecognised syntax at line 1: '#Bad'.");
    assert!(diags.has_errors());
}

#[test]
fn long_error_lines_are_cut_for_display() {
    let line = format!("?{}", "x".repeat(70));
    let (_, diags, parser) = parse(&line);
    let expected = format!("Unrecognised syntax at line 1: '?{}...'.", "x".repeat(56));
    assert_eq!(diags.all()[0].message, expected);
    assert!(!parser.slice_fault);
}

#[test]
fn conditions_of_each_kind() {
    let (nodes, diags, _) = parse("? @key in player\n? @key not in chest\n? intro.exhausted\n? garbage");
    match &nodes[0] {
        ContentNode::Condition(c) => match &c.expr {
            ConditionExpr::ContainmentCheck(k) => {
                assert_eq!((k.entity_ref.as_str(), k.container_ref.as_str(), k.negated), ("key", "player", false));
            }
            other => panic!("unexpected {:?}", other),
        },
        other => panic!("unexpected {:?}", other),
    }
    match &nodes[1] {
        ContentNode::Condition(c) => match &c.expr {
            ConditionExpr::ContainmentCheck(k) => {
                assert_eq!((k.entity_ref.as_str(), k.container_ref.as_str(), k.negated), ("key", "chest", true));
            }
            other => panic!("unexpected {:?}", other),
        },
        other => panic!("unexpected {:?}", other),
    }
    match &nodes[2] {
        ContentNode::Condition(c) => match &c.expr {
            ConditionExpr::ExhaustionCheck(x) => assert_eq!(x.section_name, "intro"),
            other => panic!("unexpected {:?}", other),
        },
        other => panic!("unexpected {:?}", other),
    }
    match &nodes[3] {
        ContentNode::ErrorNode(e) => assert_eq!(e.attempted_rule.as_deref(), Some("ConditionExpr")),
        other => panic!("unexpected {:?}", other),
    }
    assert_eq!(diags.len(), 1);
    assert_eq!(diags.all()[0].message, "Unrecognised syntax at line 4: '? garbage'.");
}

#[test]
fn exit_declaration_collects_children() {
    let (nodes, diags, _) = parse("-> north: Hall\n  ? @door.open == true\n  ! The door is shut.\n-> exit:north");
    assert!(diags.is_empty());
    assert_eq!(nodes.len(), 2);
    match &nodes[0] {
        ContentNode::ExitDeclaration(x) => {
            assert_eq!(x.direction, "north");
            assert_eq!(x.destination, "Hall");
            assert_eq!(x.children.len(), 2);
            assert!(matches!(x.children[0], ContentNode::Condition(_)));
            match &x.children[1] {
                ContentNode::BlockedMessage(b) => assert_eq!(b.text, "The door is shut."),
                other => panic!("unexpected {:?}", other),
            }
        }
        other => panic!("unexpected {:?}", other),
    }
    match &nodes[1] {
        ContentNode::Jump(j) => {
            assert_eq!(j.target, "north");
            assert!(j.is_exit_qualified);
        }
        other => panic!("unexpected {:?}", other),
    }
}

#[test]
fn any_block_ends_at_blank_line() {
    let (nodes, _, _) = parse("? any:\n  @a.x == 1\n  @b.y == 2\n\nProse here");
    assert_eq!(nodes.len(), 2);
    match &nodes[0] {
        ContentNode::OrConditionBlock(b) => {
            assert_eq!(b.conditions.len(), 2);
            assert_eq!((b.span.start_line, b.span.end_line), (1, 3));
        }
        other => panic!("unexpected {:?}", other),
    }
    match &nodes[1] {
        ContentNode::Prose(p) => assert_eq!(p.text, "Prose here"),
        other => panic!("unexpected {:?}", other),
    }
}

#[test]
fn rule_block_with_select() {
    let src = "rule wander:\n  actor: @guard patrol\n  selects target from [@a, @b]\n    where @target.awake == true\n  > move @guard -> hall\n";
    let (nodes, diags, parser) = parse(src);
    assert!(diags.is_empty());
    assert!(!parser.slice_fault);
    match &nodes[0] {
        ContentNode::RuleBlock(r) => {
            assert_eq!(r.name, "wander");
            assert_eq!(r.actor, "guard");
            assert_eq!(r.trigger, "patrol");
            let sel = r.select.as_ref().unwrap();
            assert_eq!(sel.variable, "target");
            assert_eq!(sel.entity_refs, vec!["a".to_string(), "b".to_string()]);
            assert_eq!(sel.where_clauses.len(), 1);
            assert_eq!(r.effects.len(), 1);
            match &r.effects[0].effect_type {
                EffectType::Move { entity_ref, destination_ref } => {
                    assert_eq!((entity_ref.as_str(), destination_ref.as_str()), ("guard", "hall"));
                }
                other => panic!("unexpected {:?}", other),
            }
            assert_eq!((r.span.start_line, r.span.end_line), (1, 5));
        }
        other => panic!("unexpected {:?}", other),
    }
}

#[test]
fn selects_line_without_variable_is_a_fault() {
    let (_, _, parser) = parse("rule r:\n  selects from [@a]\n");
    assert!(parser.slice_fault);
}

#[test]
fn choice_without_label_is_an_error() {
    let (nodes, diags, _) = parse("*  -> somewhere");
    assert!(matches!(nodes[0], ContentNode::ErrorNode(_)));
    assert_eq!(diags.all()[0].code, "URD112");
}

#[test]
fn entity_lines() {
    let (nodes, diags, _) = parse("@guard leans in.\n@guard\n@Guard: hi\n@guard:");
    match &nodes[0] {
        ContentNode::StageDirection(s) => assert_eq!((s.entity_ref.as_str(), s.text.as_str()), ("guard", "leans in.")),
        other => panic!("unexpected {:?}", other),
    }
    match &nodes[1] {
        ContentNode::StageDirection(s) => assert_eq!(s.text, ""),
        other => panic!("unexpected {:?}", other),
    }
    assert!(matches!(nodes[2], ContentNode::ErrorNode(_)));
    match &nodes[3] {
        ContentNode::EntitySpeech(s) => assert_eq!(s.text, ""),
        other => panic!("unexpected {:?}", other),
    }
    assert_eq!(diags.len(), 1);
}

#[test]
fn phase_comment_and_effects() {
    let (nodes, _, _) = parse("### Night (auto)\n// a note\n//\n> destroy @lamp\n> reveal @box.contents\n> @x.count - 2");
    match &nodes[0] {
        ContentNode::PhaseHeading(h) => {
            assert_eq!(h.display_name, "Night");
            assert!(h.auto);
        }
        other => panic!("unexpected {:?}", other),
    }
    match &nodes[1] {
        ContentNode::Comment(c) => assert_eq!(c.text, "a note"),
        other => panic!("unexpected {:?}", other),
    }
    match &nodes[2] {
        ContentNode::Comment(c) => assert_eq!(c.text, ""),
        other => panic!("unexpected {:?}", other),
    }
    match &nodes[3] {
        ContentNode::Effect(e) => assert!(matches!(&e.effect_type, EffectType::Destroy { entity_ref } if entity_ref == "lamp")),
        other => panic!("unexpected {:?}", other),
    }
    match &nodes[4] {
        ContentNode::Effect(e) => assert!(matches!(&e.effect_type, EffectType::Reveal { target_prop } if target_prop == "@box.contents")),
        other => panic!("unexpected {:?}", other),
    }
    match &nodes[5] {
        ContentNode::Effect(e) => match &e.effect_type {
            EffectType::Assign { operator, value_expr, .. } => assert_eq!((operator.as_str(), value_expr.as_str()), ("-", "2")),
            other => panic!("unexpected {:?}", other),
        },
        other => panic!("unexpected {:?}", other),
    }
}

#[test]
fn nested_content_stops_at_shallower_line() {
    let mut parser = Parser::new("f.urd.md", "  inner\nouter");
    let mut diags = DiagnosticCollector::new();
    let nodes = parse_content(&mut parser, 1, &mut diags);
    assert_eq!(nodes.len(), 1);
    assert_eq!(parser.current_line, 1);
}
