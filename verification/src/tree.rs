//! The syntax tree as the expansion loop sees it: a snapshot is the
//! sequence of provenance-carrying nodes of one tree in bottom-up
//! (post-order) traversal order, as delivered by the external parser or
//! expansion engine. The loop reads and rewrites node spans and classifies
//! macro invocations; it never needs the parent/child structure itself, so a
//! snapshot records the traversal, and rewriting is one generic
//! map-the-span step applied to every node in that order.

use vstd::prelude::*;

use crate::span::Span;

verus! {

/// The syntactic kinds that carry expansion provenance.
#[derive(Clone, Copy, Debug, PartialEq, Eq, Structural)]
pub enum NodeKind {
    Pattern,
    Type,
    Expression,
    OptionalExpression,
    Statement,
    Item,
    TraitMember,
    ImplMember,
}

/// What a node is, as far as the loop cares: an ordinary syntax node, or a
/// macro invocation. Names are interned symbols.
///
/// `segments` is the invocation's target path; an empty path is the
/// placeholder node a pattern-matching expansion leaves behind, not a real
/// invocation. `definition_name` is the name an item-position invocation
/// binds (what `macro_rules`-style definitions define), if any.
#[derive(Clone, Debug)]
pub enum NodeForm {
    Plain,
    Invocation { segments: Vec<u64>, definition_name: Option<u64> },
}

/// One provenance-carrying node of a tree snapshot.
#[derive(Clone, Debug)]
pub struct Node {
    pub kind: NodeKind,
    pub span: Span,
    pub form: NodeForm,
}

impl Node {
    /// A structurally identical node whose span is replaced.
    pub open spec fn with_span(self, s: Span) -> Node {
        Node { span: s, ..self }
    }

    /// The first segment of the node's invocation path: `None` for ordinary
    /// nodes and for the anonymous placeholder (empty path).
    pub open spec fn invocation_target(self) -> Option<u64> {
        match self.form {
            NodeForm::Plain => None,
            NodeForm::Invocation { segments, .. } => if segments@.len() > 0 {
                Some(segments@[0])
            } else {
                None
            },
        }
    }

    /// Computes `self.invocation_target()`.
    pub fn target(&self) -> (t: Option<u64>)
        ensures
            t == self.invocation_target(),
    {
        match &self.form {
            NodeForm::Plain => None,
            NodeForm::Invocation { segments, .. } => {
                if segments.len() > 0 {
                    Some(segments[0])
                } else {
                    None
                }
            },
        }
    }
}

/// An immutable tree snapshot: the nodes of one tree in bottom-up traversal
/// order. Snapshots are captured once per round and never mutated.
#[derive(Clone, Debug)]
pub struct Snapshot {
    pub nodes: Vec<Node>,
}

impl View for Snapshot {
    type V = Seq<Node>;

    open spec fn view(&self) -> Seq<Node> {
        self.nodes@
    }
}

impl Snapshot {
    /// The snapshot of an empty tree.
    pub fn empty() -> (s: Snapshot)
        ensures
            s@ == Seq::<Node>::empty(),
    {
        Snapshot { nodes: Vec::new() }
    }
}

} // verus!
