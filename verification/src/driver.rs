//! The round driver: owns the expansion registry, the provenance tracker
//! and the snapshot sequence for one run, rewrites each freshly expanded
//! tree's spans, and decides when the loop is done.
//!
//! The caller runs the loop: while `needs_round` holds, it asks the external
//! expansion engine for one level of expansion (the engine registers one
//! record per substitution via `record_expansion`), hands the expanded tree
//! to `complete_round`, and renders the new snapshot.

use vstd::pervasive::VecAdditionalExecFns;
use vstd::prelude::*;

use crate::definitions::{MacroEnv, MacroKind};
use crate::provenance::{
    register_model, resolve_in, wf, lemma_register_preserves_wf, ProvenanceInconsistency,
    ProvenanceModel, ProvenanceTracker,
};
use crate::registry::{records_wf, ExpnRecord, ExpnRegistry};
use crate::scanner::{has_pending, pending_invocations};
use crate::span::{ExpnId, Span};
use crate::tree::{Node, NodeForm, NodeKind, Snapshot};

verus! {

/// What one node of the rewriting walk does to the provenance state: an
/// original-source span passes through unchanged; any other span is
/// registered (fatal if its identity has no record) and then replaced by its
/// resolution.
pub open spec fn rewrite_step(m: ProvenanceModel, n: Node) -> Result<
    (ProvenanceModel, Node),
    ProvenanceInconsistency,
> {
    if n.span.is_canonical() {
        Ok((m, n))
    } else {
        match register_model(m, n.span) {
            None => Err(ProvenanceInconsistency { identity: n.span.expn->Expansion_0 }),
            Some(m2) => Ok((m2, n.with_span(resolve_in(m2.map, n.span)))),
        }
    }
}

/// The result of rewriting a whole tree, node by node in bottom-up order:
/// whether every registration succeeded, the provenance state reached (on
/// failure: the state at the failing node), the rewritten nodes (on
/// failure: the prefix processed), and the failure, if any.
#[verifier::ext_equal]
pub struct RewriteOutcome {
    pub ok: bool,
    pub state: ProvenanceModel,
    pub nodes: Seq<Node>,
    pub fault: Option<ProvenanceInconsistency>,
}

/// Rewriting a tree: `rewrite_step` folded over the nodes in order,
/// stopping at the first failure.
pub open spec fn rewrite_outcome(m: ProvenanceModel, nodes: Seq<Node>) -> RewriteOutcome
    decreases nodes.len(),
{
    if nodes.len() == 0 {
        RewriteOutcome { ok: true, state: m, nodes: Seq::empty(), fault: None }
    } else {
        let r = rewrite_outcome(m, nodes.drop_last());
        if !r.ok {
            r
        } else {
            match rewrite_step(r.state, nodes.last()) {
                Err(e) => RewriteOutcome { ok: false, state: r.state, nodes: r.nodes, fault: Some(e) },
                Ok((m2, n2)) => RewriteOutcome {
                    ok: true,
                    state: m2,
                    nodes: r.nodes.push(n2),
                    fault: None,
                },
            }
        }
    }
}

/// Once the walk has failed, processing further nodes changes nothing.
proof fn lemma_rewrite_failure_extends(m: ProvenanceModel, nodes: Seq<Node>, i: int)
    requires
        0 <= i <= nodes.len(),
        !rewrite_outcome(m, nodes.take(i)).ok,
    ensures
        rewrite_outcome(m, nodes) == rewrite_outcome(m, nodes.take(i)),
    decreases nodes.len() - i,
{
    if i == nodes.len() {
        assert(nodes.take(i) == nodes);
    } else {
        assert(nodes.take(i + 1).drop_last() == nodes.take(i));
        lemma_rewrite_failure_extends(m, nodes, i + 1);
    }
}

/// A round's rewrite keeps the provenance state consistent, whether or not
/// it runs to completion.
pub proof fn lemma_rewrite_preserves_wf(m: ProvenanceModel, nodes: Seq<Node>)
    requires
        wf(m),
    ensures
        wf(rewrite_outcome(m, nodes).state),
    decreases nodes.len(),
{
    if nodes.len() > 0 {
        lemma_rewrite_preserves_wf(m, nodes.drop_last());
        let r = rewrite_outcome(m, nodes.drop_last());
        if r.ok {
            let n = nodes.last();
            if !n.span.is_canonical() {
                match register_model(r.state, n.span) {
                    None => {},
                    Some(m2) => lemma_register_preserves_wf(r.state, n.span, m2),
                }
            }
        }
    }
}

/// The driver's state as mathematics: the registry's records, the
/// provenance map, and the snapshots emitted so far, oldest first.
#[verifier::ext_equal]
pub struct DriverView {
    pub records: Seq<ExpnRecord>,
    pub map: Map<u64, Span>,
    pub snapshots: Seq<Seq<Node>>,
}

/// The provenance part of a driver state.
pub open spec fn view_prov(v: DriverView) -> ProvenanceModel {
    ProvenanceModel { records: v.records, map: v.map }
}

/// The state a fresh run starts in: nothing registered, nothing tracked,
/// and the un-expanded tree as snapshot zero.
pub open spec fn initial_view(tree: Seq<Node>) -> DriverView {
    DriverView { records: Seq::empty(), map: Map::empty(), snapshots: seq![tree] }
}

/// Whether completing a round on `expanded` succeeds from state `v`.
pub open spec fn round_ok(v: DriverView, expanded: Seq<Node>) -> bool {
    rewrite_outcome(view_prov(v), expanded).ok
}

/// The state after completing a round on `expanded` from state `v`: the
/// provenance state the rewrite reached and, on success, the rewritten tree
/// appended as the next snapshot (no partial snapshot on failure).
pub open spec fn round_view(v: DriverView, expanded: Seq<Node>) -> DriverView {
    let r = rewrite_outcome(view_prov(v), expanded);
    DriverView {
        records: r.state.records,
        map: r.state.map,
        snapshots: if r.ok {
            v.snapshots.push(r.nodes)
        } else {
            v.snapshots
        },
    }
}

/// What one round's expansion hands back: the records the engine minted,
/// one per substitution it performed, and the expanded tree.
pub struct RoundEvent {
    pub minted: Seq<ExpnRecord>,
    pub expanded: Seq<Node>,
}

/// The state after the engine registered a round's records.
pub open spec fn recorded_view(v: DriverView, minted: Seq<ExpnRecord>) -> DriverView {
    DriverView { records: v.records + minted, ..v }
}

/// The state after a whole run: for each round, the engine's records are
/// registered and the expanded tree completes the round, starting from the
/// initial tree.
pub open spec fn run_view(tree: Seq<Node>, events: Seq<RoundEvent>) -> DriverView
    decreases events.len(),
{
    if events.len() == 0 {
        initial_view(tree)
    } else {
        round_view(
            recorded_view(run_view(tree, events.drop_last()), events.last().minted),
            events.last().expanded,
        )
    }
}

/// Whether every round of a run succeeds.
pub open spec fn run_ok(tree: Seq<Node>, events: Seq<RoundEvent>) -> bool
    decreases events.len(),
{
    events.len() == 0 || (run_ok(tree, events.drop_last()) && round_ok(
        recorded_view(run_view(tree, events.drop_last()), events.last().minted),
        events.last().expanded,
    ))
}

/// Records an engine mints during one round are consistent when each
/// refers only to records that already exist at the moment it is
/// registered: the ones present before the round plus those minted earlier
/// in the same round.
pub open spec fn minted_wf(existing: Seq<ExpnRecord>, minted: Seq<ExpnRecord>) -> bool {
    forall|j: int|
        0 <= j < minted.len() ==> (#[trigger] minted[j]).call_site.refs_below(
            existing.len() + j,
        ) && minted[j].callee.refs_below(existing.len() + j)
}

/// Registering consistent engine records keeps the provenance state
/// consistent.
proof fn lemma_recorded_preserves_wf(v: DriverView, minted: Seq<ExpnRecord>)
    requires
        wf(view_prov(v)),
        minted_wf(v.records, minted),
    ensures
        wf(view_prov(recorded_view(v, minted))),
{
    let all = v.records + minted;
    assert forall|i: int|
        0 <= i < all.len() implies (#[trigger] all[i]).call_site.refs_below(i)
        && all[i].callee.refs_below(i) by {
        if i < v.records.len() {
            assert(all[i] == v.records[i]);
        } else {
            assert(all[i] == minted[i - v.records.len()]);
        }
    }
    let m2 = view_prov(recorded_view(v, minted));
    assert forall|k: u64| m2.map.contains_key(k) implies {
        &&& (#[trigger] m2.map[k]).refs_below(m2.records.len() as int)
        &&& m2.map[k].key() == k
        &&& !m2.map[k].is_canonical()
    } by {
        assert(view_prov(v).map.contains_key(k));
        assert(view_prov(v).map[k] == m2.map[k]);
    }
}

/// Whether every round of a run hands back consistent records.
pub open spec fn run_events_wf(tree: Seq<Node>, events: Seq<RoundEvent>) -> bool
    decreases events.len(),
{
    events.len() == 0 || (run_events_wf(tree, events.drop_last()) && minted_wf(
        run_view(tree, events.drop_last()).records,
        events.last().minted,
    ))
}

/// As long as the engine's records are consistent, a whole run keeps the
/// provenance state consistent — the condition under which every
/// registration keeps a location's chain rooted at its original call site.
pub proof fn lemma_run_preserves_wf(tree: Seq<Node>, events: Seq<RoundEvent>)
    requires
        run_events_wf(tree, events),
    ensures
        wf(view_prov(run_view(tree, events))),
    decreases events.len(),
{
    if events.len() == 0 {
        assert(records_wf(Seq::<ExpnRecord>::empty()));
    } else {
        lemma_run_preserves_wf(tree, events.drop_last());
        let before = run_view(tree, events.drop_last());
        lemma_recorded_preserves_wf(before, events.last().minted);
        lemma_rewrite_preserves_wf(
            view_prov(recorded_view(before, events.last().minted)),
            events.last().expanded,
        );
    }
}

/// Monotonic snapshot count: a run that executes its rounds successfully
/// has emitted exactly one snapshot more than it ran rounds; snapshot zero
/// is the un-expanded input, and each round appends exactly one snapshot at
/// the end, so round indices come out strictly increasing with no gaps.
pub proof fn lemma_snapshot_count(tree: Seq<Node>, events: Seq<RoundEvent>)
    requires
        run_ok(tree, events),
    ensures
        run_view(tree, events).snapshots.len() == events.len() + 1,
        run_view(tree, events).snapshots[0] == tree,
    decreases events.len(),
{
    if events.len() > 0 {
        lemma_snapshot_count(tree, events.drop_last());
    }
}

/// Idempotent no-op on already-expanded input: a tree with no pending
/// invocation never lets the loop guard pass, so zero rounds execute and
/// the run's one emitted snapshot (round zero) is the input itself.
pub proof fn lemma_no_op_on_expanded(tree: Seq<Node>, env: Map<u64, MacroKind>)
    requires
        !has_pending(tree, env),
    ensures
        !has_pending(run_view(tree, Seq::empty()).snapshots.last(), env),
        run_view(tree, Seq::empty()).snapshots =~= seq![tree],
{
}

/// Depths stay in lockstep with the round index while invocations remain.
proof fn lemma_depth_countdown(
    trees: Seq<Seq<Node>>,
    env: Map<u64, MacroKind>,
    depth: spec_fn(Seq<Node>) -> nat,
    i: int,
)
    requires
        trees.len() > 0,
        depth(trees[0]) < trees.len(),
        forall|j: int|
            0 <= j < trees.len() ==> (has_pending(#[trigger] trees[j], env) <==> depth(trees[j])
                > 0),
        forall|j: int|
            0 <= j < trees.len() - 1 ==> (depth(#[trigger] trees[j]) > 0 ==> depth(trees[j + 1])
                + 1 == depth(trees[j])),
        0 <= i <= depth(trees[0]),
    ensures
        depth(trees[i]) + i == depth(trees[0]),
    decreases i,
{
    if i > 0 {
        lemma_depth_countdown(trees, env, depth, i - 1);
    }
}

/// Termination on acyclic expansion: let `trees` be the trees a run visits
/// (`trees[0]` the parsed input, `trees[j + 1]` the rewritten output of
/// round `j`), and let `depth` measure the maximum nesting depth of
/// invocations still to expand. For a finite chain of invocations with no
/// self-referential expansion, one level of expansion reduces the depth by
/// exactly one, and a tree has pending invocations exactly while its depth
/// is positive; the loop therefore runs exactly `depth(trees[0])` rounds
/// and then reaches its terminal state.
pub proof fn lemma_acyclic_expansion_terminates(
    trees: Seq<Seq<Node>>,
    env: Map<u64, MacroKind>,
    depth: spec_fn(Seq<Node>) -> nat,
)
    requires
        trees.len() > 0,
        depth(trees[0]) < trees.len(),
        forall|j: int|
            0 <= j < trees.len() ==> (has_pending(#[trigger] trees[j], env) <==> depth(trees[j])
                > 0),
        forall|j: int|
            0 <= j < trees.len() - 1 ==> (depth(#[trigger] trees[j]) > 0 ==> depth(trees[j + 1])
                + 1 == depth(trees[j])),
    ensures
        forall|j: int| 0 <= j < depth(trees[0]) ==> has_pending(#[trigger] trees[j], env),
        !has_pending(trees[depth(trees[0]) as int], env),
{
    assert forall|j: int| 0 <= j < depth(trees[0]) implies has_pending(#[trigger] trees[j], env) by {
        lemma_depth_countdown(trees, env, depth, j);
    }
    lemma_depth_countdown(trees, env, depth, depth(trees[0]) as int);
}

/// The round driver: orchestrates one run of the expansion loop, owning the
/// registry, the tracker and the snapshot sequence for the run's lifetime.
pub struct Driver {
    registry: ExpnRegistry,
    tracker: ProvenanceTracker,
    snapshots: Vec<Snapshot>,
}

impl View for Driver {
    type V = DriverView;

    closed spec fn view(&self) -> DriverView {
        DriverView {
            records: self.registry@,
            map: self.tracker@,
            snapshots: self.snapshots@.map_values(|s: Snapshot| s@),
        }
    }
}

impl Driver {
    /// A driver always holds snapshot zero.
    pub open spec fn wf(&self) -> bool {
        self@.snapshots.len() >= 1
    }

    /// Starts a run on an externally parsed, un-expanded tree, which
    /// becomes snapshot zero (rendered before any expansion).
    pub fn new(initial: Snapshot) -> (d: Driver)
        ensures
            d@ == initial_view(initial@),
            d.wf(),
    {
        let mut snapshots: Vec<Snapshot> = Vec::new();
        snapshots.push(initial);
        let d = Driver { registry: ExpnRegistry::new(), tracker: ProvenanceTracker::new(), snapshots };
        proof {
            assert(d@.snapshots =~= seq![initial@]);
            assert(d@ =~= initial_view(initial@));
        }
        d
    }

    /// How many snapshots exist so far (rounds completed, plus one).
    pub fn snapshot_count(&self) -> (n: usize)
        ensures
            n == self@.snapshots.len(),
    {
        self.snapshots.len()
    }

    /// How many rounds have completed.
    pub fn rounds_completed(&self) -> (n: usize)
        requires
            self.wf(),
        ensures
            n == self@.snapshots.len() - 1,
    {
        self.snapshots.len() - 1
    }

    /// The snapshot emitted after round `i` (`i = 0`: the un-expanded tree).
    pub fn snapshot_at(&self, i: usize) -> (s: &Snapshot)
        requires
            i < self@.snapshots.len(),
        ensures
            s@ == self@.snapshots[i as int],
    {
        &self.snapshots[i]
    }

    /// The most recent snapshot: the tree the next round would expand.
    pub fn current_snapshot(&self) -> (s: &Snapshot)
        requires
            self.wf(),
        ensures
            s@ == self@.snapshots.last(),
    {
        &self.snapshots[self.snapshots.len() - 1]
    }

    /// Whether the current snapshot still holds a pending invocation, i.e.
    /// whether the loop must run another round or is done.
    pub fn needs_round(&self, env: &MacroEnv) -> (b: bool)
        requires
            self.wf(),
        ensures
            b == has_pending(self@.snapshots.last(), env@),
    {
        pending_invocations(self.current_snapshot(), env)
    }

    /// Registers one substitution the external expansion engine performed,
    /// handing out its fresh identity. Called by the engine (through the
    /// caller) while a round's expansion runs.
    pub fn record_expansion(&mut self, record: ExpnRecord) -> (id: ExpnId)
        ensures
            final(self)@ == (DriverView { records: old(self)@.records.push(record), ..old(self)@ }),
            id == ExpnId::Expansion(old(self)@.records.len() as usize),
            final(self).wf() == old(self).wf(),
    {
        self.registry.record_expansion(record)
    }

    /// How many expansion records the run has registered.
    pub fn expansion_count(&self) -> (n: usize)
        ensures
            n == self@.records.len(),
    {
        self.registry.count()
    }

    /// The record behind an expansion identity, if it exists.
    pub fn expansion_info(&self, id: ExpnId) -> (r: Option<ExpnRecord>)
        ensures
            r == (match id {
                ExpnId::NoExpansion => None::<ExpnRecord>,
                ExpnId::Expansion(i) => if i < self@.records.len() {
                    Some(self@.records[i as int])
                } else {
                    None
                },
            }),
    {
        self.registry.expansion_info(id)
    }

    /// The current canonical span for a location, per the tracker.
    pub fn resolve_span(&self, span: Span) -> (r: Span)
        ensures
            r == resolve_in(self@.map, span),
    {
        self.tracker.resolve(span)
    }

    /// Completes one round: walks the freshly expanded tree bottom-up,
    /// registering and resolving every span that carries an expansion
    /// identity, and appends the rewritten tree as the next snapshot. On a
    /// provenance inconsistency the run is not continuable: the faulty
    /// round's snapshot is not emitted and the error says which identity had
    /// no record.
    #[verifier::loop_isolation(false)]
    pub fn complete_round(&mut self, expanded: Snapshot) -> (result: Result<
        (),
        ProvenanceInconsistency,
    >)
        requires
            old(self).wf(),
        ensures
            final(self).wf(),
            final(self)@ == round_view(old(self)@, expanded@),
            result is Ok <==> round_ok(old(self)@, expanded@),
            result matches Err(e) ==> rewrite_outcome(view_prov(old(self)@), expanded@).fault
                == Some(e),
    {
        let ghost pre = ProvenanceModel { records: self.registry@, map: self.tracker@ };
        let ghost snaps0 = self.snapshots@;
        let mut nodes = expanded.nodes;
        let ghost orig = nodes@;
        let n = nodes.len();
        let mut rewritten: Vec<Node> = Vec::new();
        for i in 0..n
            invariant
                n == orig.len(),
                nodes@.len() == n,
                forall|j: int| i <= j < n ==> nodes@[j] == orig[j],
                self.snapshots@ == snaps0,
                ({
                    let r = rewrite_outcome(pre, orig.take(i as int));
                    &&& r.ok
                    &&& r.state.records == self.registry@
                    &&& r.state.map == self.tracker@
                    &&& r.nodes == rewritten@
                }),
        {
            let mut node = Node {
                kind: NodeKind::Expression,
                span: Span::source(0, 0),
                form: NodeForm::Plain,
            };
            nodes.set_and_swap(i, &mut node);
            assert(node == orig[i as int]);
            let span = node.span;
            let is_original = match span.expn {
                ExpnId::NoExpansion => true,
                ExpnId::Expansion(_) => false,
            };
            if is_original {
                rewritten.push(node);
            } else {
                match self.tracker.register(&mut self.registry, span) {
                    Err(e) => {
                        proof {
                            assert(orig.take(i + 1).drop_last() == orig.take(i as int));
                            assert(orig.take(i + 1).last() == orig[i as int]);
                            assert(!rewrite_outcome(pre, orig.take(i + 1)).ok);
                            lemma_rewrite_failure_extends(pre, orig, i + 1);
                        }
                        return Err(e);
                    },
                    Ok(()) => {
                        let resolved = self.tracker.resolve(span);
                        node.span = resolved;
                        rewritten.push(node);
                    },
                }
            }
            proof {
                assert(orig.take(i + 1).drop_last() == orig.take(i as int));
                assert(orig.take(i + 1).last() == orig[i as int]);
            }
        }
        proof {
            assert(orig.take(n as int) == orig);
        }
        self.snapshots.push(Snapshot { nodes: rewritten });
        proof {
            let r = rewrite_outcome(pre, orig);
            assert(self@.snapshots =~= snaps0.map_values(|s: Snapshot| s@).push(r.nodes));
        }
        Ok(())
    }
}

} // verus!
