//! The full incremental expansion loop, driven round by round with a small
//! stand-in for the external expansion engine.

use expander::definitions::{collect_definitions, MacroEnv, MacroKind};
use expander::driver::Driver;
use expander::registry::ExpnRecord;
use expander::span::{ExpnId, Span};
use expander::tree::{Node, NodeForm, NodeKind, Snapshot};

const MACRO_RULES: u64 = 1;
const MACRO_M: u64 = 2;
const MACRO_N: u64 = 3;

fn plain(kind: NodeKind, span: Span) -> Node {
    Node { kind, span, form: NodeForm::Plain }
}

fn invocation(target: u64, span: Span) -> Node {
    Node {
        kind: NodeKind::Item,
        span,
        form: NodeForm::Invocation { segments: vec![target], definition_name: None },
    }
}

fn definition(name: u64, span: Span) -> Node {
    Node {
        kind: NodeKind::Item,
        span,
        form: NodeForm::Invocation {
            segments: vec![MACRO_RULES],
            definition_name: Some(name),
        },
    }
}

fn base_env() -> MacroEnv {
    let mut env = MacroEnv::new();
    env.define(MACRO_RULES, MacroKind::PatternDefinition);
    env
}

#[test]
fn no_op_on_already_expanded_input() {
    // zero invocations: zero rounds run, and the one emitted snapshot
    // (round 0) is the input itself
    let env = base_env();
    let input = Snapshot {
        nodes: vec![
            plain(NodeKind::Item, Span::source(0, 40)),
            plain(NodeKind::Expression, Span::source(10, 30)),
        ],
    };
    let driver = Driver::new(input);
    // the loop guard fails at once: zero rounds run
    assert!(!driver.needs_round(&env));
    assert_eq!(driver.snapshot_count(), 1);
    assert_eq!(driver.rounds_completed(), 0);
    let round0 = driver.snapshot_at(0);
    assert_eq!(round0.nodes.len(), 2);
    assert_eq!(round0.nodes[0].span, Span::source(0, 40));
    assert_eq!(round0.nodes[1].span, Span::source(10, 30));
}

#[test]
fn definitions_only_tree_halts_after_round_zero() {
    let mut env = base_env();
    let input = Snapshot {
        nodes: vec![
            definition(MACRO_M, Span::source(0, 30)),
            definition(MACRO_N, Span::source(31, 60)),
        ],
    };
    collect_definitions(&input, &mut env);
    let driver = Driver::new(input);
    assert!(!driver.needs_round(&env));
    assert_eq!(driver.snapshot_count(), 1);
}

#[test]
fn complete_round_passes_original_spans_through() {
    let mut driver = Driver::new(Snapshot {
        nodes: vec![plain(NodeKind::Item, Span::source(0, 9))],
    });
    let expanded = Snapshot {
        nodes: vec![
            plain(NodeKind::Item, Span::source(0, 9)),
            plain(NodeKind::Statement, Span::source(2, 7)),
        ],
    };
    assert_eq!(driver.complete_round(expanded), Ok(()));
    assert_eq!(driver.snapshot_count(), 2);
    let round1 = driver.snapshot_at(1);
    assert_eq!(round1.nodes[0].span, Span::source(0, 9));
    assert_eq!(round1.nodes[1].span, Span::source(2, 7));
}

#[test]
fn failed_round_emits_no_snapshot() {
    let mut driver = Driver::new(Snapshot {
        nodes: vec![plain(NodeKind::Item, Span::source(0, 9))],
    });
    // an expansion identity the registry never handed out: fatal
    let expanded = Snapshot {
        nodes: vec![plain(NodeKind::Item, Span { lo: 0, hi: 9, expn: ExpnId::Expansion(5) })],
    };
    let err = driver.complete_round(expanded).unwrap_err();
    assert_eq!(err.identity, 5);
    assert_eq!(driver.snapshot_count(), 1);
    assert_eq!(driver.rounds_completed(), 0);
}

/// One level of expansion for the two-macro example program: `m!` expands
/// to `n!`, and `n!` to a literal. Stands in for the external expansion
/// engine: replaces each pending invocation with its immediate output and
/// registers one record per substitution, like the engine's contract asks.
fn expand_one_level(driver: &mut Driver, env: &MacroEnv) -> Snapshot {
    let current = driver.current_snapshot().clone();
    let mut nodes = Vec::new();
    for node in current.nodes {
        let target = match &node.form {
            NodeForm::Invocation { segments, .. } if !segments.is_empty() => Some(segments[0]),
            _ => None,
        };
        let pending = match target {
            Some(name) => env.lookup(name) == Some(MacroKind::Functional),
            None => false,
        };
        if !pending {
            nodes.push(node);
            continue;
        }
        match target {
            Some(MACRO_M) => {
                // m! produces the invocation n!, from inside m's definition
                let id = driver.record_expansion(ExpnRecord {
                    call_site: node.span,
                    callee: Span::source(10, 20),
                });
                let out = Span { lo: node.span.lo, hi: node.span.hi, expn: id };
                nodes.push(invocation(MACRO_N, out));
            }
            Some(MACRO_N) => {
                // n! produces a literal expression, from inside n's definition.
                // This engine mints round-local records: the call site it
                // names is the original-source location, as a fresh span.
                let id = driver.record_expansion(ExpnRecord {
                    call_site: Span::source(node.span.lo, node.span.hi),
                    callee: Span::source(41, 50),
                });
                let out = Span { lo: node.span.lo, hi: node.span.hi, expn: id };
                nodes.push(plain(NodeKind::Expression, out));
            }
            _ => nodes.push(node),
        }
    }
    Snapshot { nodes }
}

fn is_invocation_of(node: &Node, name: u64) -> bool {
    match &node.form {
        NodeForm::Invocation { segments, .. } => segments.first() == Some(&name),
        _ => false,
    }
}

#[test]
fn two_level_expansion_runs_two_rounds_and_keeps_provenance() {
    // the example program: definitions of m! and n!, and one call m!()
    let mut env = base_env();
    let call_site = Span::source(61, 70);
    let input = Snapshot {
        nodes: vec![
            definition(MACRO_M, Span::source(0, 30)),
            definition(MACRO_N, Span::source(31, 60)),
            invocation(MACRO_M, call_site),
        ],
    };
    collect_definitions(&input, &mut env);
    let mut driver = Driver::new(input);

    let mut rounds = 0;
    while driver.needs_round(&env) {
        let expanded = expand_one_level(&mut driver, &env);
        driver.complete_round(expanded).unwrap();
        rounds += 1;
        assert_eq!(driver.snapshot_count(), rounds + 1);
        assert!(rounds <= 2, "the loop must terminate after two rounds");
    }

    // termination after exactly the nesting depth, three snapshots emitted
    assert_eq!(rounds, 2);
    assert_eq!(driver.snapshot_count(), 3);
    assert_eq!(driver.rounds_completed(), 2);

    // round 0 contains m!(), round 1 contains n!(), round 2 the literal
    assert!(is_invocation_of(&driver.snapshot_at(0).nodes[2], MACRO_M));
    assert!(is_invocation_of(&driver.snapshot_at(1).nodes[2], MACRO_N));
    let literal = &driver.snapshot_at(2).nodes[2];
    assert!(matches!(literal.form, NodeForm::Plain));
    assert_eq!(literal.kind, NodeKind::Expression);

    // the twice-rewritten call site still reports its location, and its
    // provenance chain roots at the original call site
    let reported = driver.resolve_span(call_site);
    assert_eq!((reported.lo, reported.hi), (61, 70));
    let mut cursor = reported;
    let mut hops = 0;
    while let Some(info) = driver.expansion_info(cursor.expn) {
        cursor = info.call_site;
        hops += 1;
        assert!(hops <= 3, "the provenance chain must be finite");
    }
    assert_eq!(cursor, call_site);
    assert!(hops >= 2, "two rounds of rewriting must have chained");

    // the engine minted two records; registering the second one chained a
    // third through the round-1 span
    assert_eq!(driver.expansion_count(), 3);
}

#[test]
fn round_one_rewrites_to_the_raw_expansion_span() {
    let mut env = base_env();
    let call_site = Span::source(61, 70);
    let input = Snapshot {
        nodes: vec![
            definition(MACRO_M, Span::source(0, 30)),
            definition(MACRO_N, Span::source(31, 60)),
            invocation(MACRO_M, call_site),
        ],
    };
    collect_definitions(&input, &mut env);
    let mut driver = Driver::new(input);
    let expanded = expand_one_level(&mut driver, &env);
    driver.complete_round(expanded).unwrap();
    // the first rewrite of a location stores the raw span unchanged
    let round1 = driver.snapshot_at(1);
    assert_eq!(round1.nodes[2].span, Span { lo: 61, hi: 70, expn: ExpnId::Expansion(0) });
    assert_eq!(driver.resolve_span(call_site), round1.nodes[2].span);
}
