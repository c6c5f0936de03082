//! The invocation scanner: decides whether a tree snapshot still contains a
//! macro invocation that should trigger another expansion round.

use vstd::prelude::*;

use crate::definitions::{MacroEnv, MacroKind};
use crate::tree::{Node, Snapshot};

verus! {

/// Whether a node is an unexpanded invocation that calls for another round:
/// a real invocation (not the anonymous placeholder left by a
/// pattern-matching expansion), whose target name is known, and resolves to
/// something other than the pattern-definition facility (a definition is
/// not an invocation and never triggers a round by being present).
pub open spec fn pending_node(n: Node, env: Map<u64, MacroKind>) -> bool {
    match n.invocation_target() {
        None => false,
        Some(name) => env.contains_key(name) && env[name] != MacroKind::PatternDefinition,
    }
}

/// Whether any node of the tree is a pending invocation.
pub open spec fn has_pending(nodes: Seq<Node>, env: Map<u64, MacroKind>) -> bool {
    exists|i: int| 0 <= i < nodes.len() && pending_node(nodes[i], env)
}

/// Scans a snapshot and reports whether another expansion round is needed.
/// Stops at the first pending invocation: the answer is only ever used as a
/// boolean.
pub fn pending_invocations(snapshot: &Snapshot, env: &MacroEnv) -> (b: bool)
    ensures
        b == has_pending(snapshot@, env@),
{
    let n = snapshot.nodes.len();
    for i in 0..n
        invariant
            n == snapshot@.len(),
            forall|j: int| 0 <= j < i ==> !pending_node(snapshot@[j], env@),
    {
        let node = &snapshot.nodes[i];
        match node.target() {
            None => {},
            Some(name) => {
                match env.lookup(name) {
                    None => {},
                    Some(MacroKind::PatternDefinition) => {},
                    Some(MacroKind::Functional) => {
                        assert(pending_node(snapshot@[i as int], env@));
                        return true;
                    },
                }
            },
        }
    }
    false
}

/// Definitions never trigger rounds: in a tree whose every invocation node
/// either defines a macro, is the anonymous placeholder, or names nothing
/// the environment knows — a tree containing only macro definitions, no
/// invocations — nothing is pending, so the loop halts after round zero.
pub proof fn lemma_definitions_not_pending(nodes: Seq<Node>, env: Map<u64, MacroKind>)
    requires
        forall|i: int|
            0 <= i < nodes.len() ==> (match (#[trigger] nodes[i]).invocation_target() {
                None => true,
                Some(name) => env.contains_key(name) ==> env[name]
                    == MacroKind::PatternDefinition,
            }),
    ensures
        !has_pending(nodes, env),
{
}

} // verus!
