//! The macro-definition environment: what the expansion context knows about
//! each macro name, and the pass that collects definitions seen in a tree so
//! they can be injected into that context.

use std::collections::HashMap;

use vstd::prelude::*;

use crate::tree::{Node, NodeForm, Snapshot};

verus! {

broadcast use vstd::std_specs::hash::group_hash_axioms;

/// What a macro name resolves to: the macro-pattern definition facility
/// (whose invocations *define* macros and never trigger a round), or a
/// procedural/functional macro (whose invocations are pending work).
#[derive(Clone, Copy, Debug, PartialEq, Eq, Structural)]
pub enum MacroKind {
    PatternDefinition,
    Functional,
}

/// Lookup of the macro definitions known so far: definitions seen in the
/// source or injected. Supplied to the invocation scanner and, by the
/// caller, to the external expansion engine.
pub struct MacroEnv {
    table: HashMap<u64, MacroKind>,
}

impl View for MacroEnv {
    type V = Map<u64, MacroKind>;

    closed spec fn view(&self) -> Map<u64, MacroKind> {
        self.table@
    }
}

impl MacroEnv {
    /// An environment that knows no names.
    pub fn new() -> (e: MacroEnv)
        ensures
            e@ == Map::<u64, MacroKind>::empty(),
    {
        MacroEnv { table: HashMap::new() }
    }

    /// Makes `name` known as a macro of the given kind, replacing any
    /// earlier entry.
    pub fn define(&mut self, name: u64, kind: MacroKind)
        ensures
            final(self)@ == old(self)@.insert(name, kind),
    {
        self.table.insert(name, kind);
    }

    /// What `name` resolves to, if anything.
    pub fn lookup(&self, name: u64) -> (r: Option<MacroKind>)
        ensures
            r == (if self@.contains_key(name) {
                Some(self@[name])
            } else {
                None::<MacroKind>
            }),
    {
        match self.table.get(&name) {
            Some(k) => Some(*k),
            None => None,
        }
    }
}

/// The macro name a node defines, under the given environment: the
/// definition name of an item-position invocation whose target resolves to
/// the pattern-definition facility. `None` for everything else.
pub open spec fn defines_macro(n: Node, env: Map<u64, MacroKind>) -> Option<u64> {
    match n.form {
        NodeForm::Plain => None,
        NodeForm::Invocation { segments, definition_name } => {
            if segments@.len() > 0 && env.contains_key(segments@[0]) && env[segments@[0]]
                == MacroKind::PatternDefinition {
                definition_name
            } else {
                None
            }
        },
    }
}

/// The macro names a tree defines, in tree order, all judged against the
/// same environment (the one in force when the walk started).
pub open spec fn definitions_in(nodes: Seq<Node>, env: Map<u64, MacroKind>) -> Seq<u64>
    decreases nodes.len(),
{
    if nodes.len() == 0 {
        Seq::empty()
    } else {
        definitions_in(nodes.drop_last(), env) + (match defines_macro(nodes.last(), env) {
            Some(name) => seq![name],
            None => Seq::empty(),
        })
    }
}

/// The environment after all of `names` are made known as functional
/// macros, in order.
pub open spec fn insert_all(env: Map<u64, MacroKind>, names: Seq<u64>) -> Map<u64, MacroKind>
    decreases names.len(),
{
    if names.len() == 0 {
        env
    } else {
        insert_all(env, names.drop_last()).insert(names.last(), MacroKind::Functional)
    }
}

/// Collects the macro definitions a snapshot holds and injects them into
/// the environment: first the whole tree is walked against the environment
/// as it was, then every collected name becomes known as a functional
/// macro. Returns the collected names in tree order, so the caller can hand
/// the corresponding definition bodies to the external expansion engine.
pub fn collect_definitions(snapshot: &Snapshot, env: &mut MacroEnv) -> (names: Vec<u64>)
    ensures
        names@ == definitions_in(snapshot@, old(env)@),
        final(env)@ == insert_all(old(env)@, names@),
{
    let ghost env0 = env@;
    let mut names: Vec<u64> = Vec::new();
    let n = snapshot.nodes.len();
    for i in 0..n
        invariant
            n == snapshot@.len(),
            env@ == env0,
            names@ == definitions_in(snapshot@.take(i as int), env0),
    {
        let node = &snapshot.nodes[i];
        match &node.form {
            NodeForm::Plain => {},
            NodeForm::Invocation { segments, definition_name } => {
                if segments.len() > 0 {
                    match env.lookup(segments[0]) {
                        Some(MacroKind::PatternDefinition) => {
                            match definition_name {
                                Some(name) => names.push(*name),
                                None => {},
                            }
                        },
                        _ => {},
                    }
                }
            },
        }
        assert(snapshot@.take(i + 1).drop_last() == snapshot@.take(i as int));
        assert(snapshot@.take(i + 1).last() == snapshot@[i as int]);
    }
    assert(snapshot@.take(n as int) == snapshot@);

    let m = names.len();
    let ghost all_names = names@;
    for j in 0..m
        invariant
            m == all_names.len(),
            names@ == all_names,
            env@ == insert_all(env0, all_names.take(j as int)),
    {
        env.define(names[j], MacroKind::Functional);
        assert(all_names.take(j + 1).drop_last() == all_names.take(j as int));
    }
    assert(all_names.take(m as int) == all_names);
    names
}

} // verus!
