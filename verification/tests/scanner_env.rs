//! Invocation scanning and macro-definition collection.

use expander::definitions::{collect_definitions, MacroEnv, MacroKind};
use expander::scanner::pending_invocations;
use expander::span::Span;
use expander::tree::{Node, NodeForm, NodeKind, Snapshot};

const MACRO_RULES: u64 = 1;
const MACRO_M: u64 = 2;
const MACRO_N: u64 = 3;

fn plain(kind: NodeKind, lo: u32, hi: u32) -> Node {
    Node { kind, span: Span::source(lo, hi), form: NodeForm::Plain }
}

fn invocation(target: u64, lo: u32, hi: u32) -> Node {
    Node {
        kind: NodeKind::Expression,
        span: Span::source(lo, hi),
        form: NodeForm::Invocation { segments: vec![target], definition_name: None },
    }
}

fn definition(name: u64, lo: u32, hi: u32) -> Node {
    Node {
        kind: NodeKind::Item,
        span: Span::source(lo, hi),
        form: NodeForm::Invocation {
            segments: vec![MACRO_RULES],
            definition_name: Some(name),
        },
    }
}

fn base_env() -> MacroEnv {
    let mut env = MacroEnv::new();
    env.define(MACRO_RULES, MacroKind::PatternDefinition);
    env
}

#[test]
fn functional_invocation_is_pending() {
    let mut env = base_env();
    env.define(MACRO_M, MacroKind::Functional);
    let snap = Snapshot { nodes: vec![plain(NodeKind::Item, 0, 9), invocation(MACRO_M, 10, 20)] };
    assert!(pending_invocations(&snap, &env));
}

#[test]
fn plain_nodes_are_not_pending() {
    let env = base_env();
    let snap = Snapshot {
        nodes: vec![plain(NodeKind::Statement, 0, 5), plain(NodeKind::Expression, 1, 4)],
    };
    assert!(!pending_invocations(&snap, &env));
}

#[test]
fn placeholder_with_empty_path_is_ignored() {
    let env = base_env();
    let snap = Snapshot {
        nodes: vec![Node {
            kind: NodeKind::Item,
            span: Span::source(0, 8),
            form: NodeForm::Invocation { segments: vec![], definition_name: None },
        }],
    };
    assert!(!pending_invocations(&snap, &env));
}

#[test]
fn unknown_target_name_is_ignored() {
    let env = base_env();
    let snap = Snapshot { nodes: vec![invocation(77, 0, 8)] };
    assert!(!pending_invocations(&snap, &env));
}

#[test]
fn definitions_never_trigger_rounds() {
    // a tree containing only macro definitions reports nothing pending
    let env = base_env();
    let snap = Snapshot {
        nodes: vec![definition(MACRO_M, 0, 30), definition(MACRO_N, 31, 60)],
    };
    assert!(!pending_invocations(&snap, &env));
}

#[test]
fn empty_tree_is_not_pending() {
    let env = base_env();
    assert!(!pending_invocations(&Snapshot::empty(), &env));
}

#[test]
fn collect_definitions_updates_environment_in_tree_order() {
    let mut env = base_env();
    let snap = Snapshot {
        nodes: vec![
            definition(MACRO_M, 0, 30),
            plain(NodeKind::Item, 31, 40),
            definition(MACRO_N, 41, 70),
        ],
    };
    let names = collect_definitions(&snap, &mut env);
    assert_eq!(names, vec![MACRO_M, MACRO_N]);
    assert_eq!(env.lookup(MACRO_M), Some(MacroKind::Functional));
    assert_eq!(env.lookup(MACRO_N), Some(MacroKind::Functional));
    assert_eq!(env.lookup(MACRO_RULES), Some(MacroKind::PatternDefinition));
}

#[test]
fn collect_ignores_unnamed_and_foreign_invocations() {
    let mut env = base_env();
    env.define(MACRO_M, MacroKind::Functional);
    let unnamed = Node {
        kind: NodeKind::Item,
        span: Span::source(0, 10),
        form: NodeForm::Invocation { segments: vec![MACRO_RULES], definition_name: None },
    };
    // an invocation of a functional macro defines nothing, named or not
    let foreign = Node {
        kind: NodeKind::Item,
        span: Span::source(11, 20),
        form: NodeForm::Invocation { segments: vec![MACRO_M], definition_name: Some(MACRO_N) },
    };
    let snap = Snapshot { nodes: vec![unnamed, foreign] };
    let names = collect_definitions(&snap, &mut env);
    assert!(names.is_empty());
    assert_eq!(env.lookup(MACRO_N), None);
}

#[test]
fn collected_macro_invocation_becomes_pending() {
    let mut env = base_env();
    let snap = Snapshot {
        nodes: vec![definition(MACRO_M, 0, 30), invocation(MACRO_M, 31, 40)],
    };
    // before collection the name is unknown, so nothing is pending
    assert!(!pending_invocations(&snap, &env));
    collect_definitions(&snap, &mut env);
    assert!(pending_invocations(&snap, &env));
}
