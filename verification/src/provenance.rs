//! The provenance tracker: a map from canonicalized original-source
//! locations to the most recently rewritten span for that location, with the
//! chaining rule that keeps a location's provenance rooted at its original
//! call site across any number of expansion rounds.

use std::collections::HashMap;

use vstd::prelude::*;

use crate::registry::{chain_root, lemma_chain_root_stable, records_wf, ExpnRecord, ExpnRegistry};
use crate::span::{ExpnId, Span};

verus! {

broadcast use vstd::std_specs::hash::group_hash_axioms;

/// Registering a span whose expansion identity has no record in the
/// registry: an invariant violation in the expansion engine's contract,
/// fatal to the whole run.
#[derive(Clone, Copy, Debug, PartialEq, Eq, Structural)]
pub struct ProvenanceInconsistency {
    /// The expansion identity that has no record.
    pub identity: usize,
}

/// The provenance state as mathematics: the registry's records and the
/// provenance map, keyed by `Span::key` of the canonicalized location.
pub struct ProvenanceModel {
    pub records: Seq<ExpnRecord>,
    pub map: Map<u64, Span>,
}

/// The provenance map is consistent with the registry: every stored span
/// refers only to existing records, sits at the location of its key, and
/// carries a real expansion identity (original-source spans are never
/// registered).
pub open spec fn map_wf(m: ProvenanceModel) -> bool {
    forall|k: u64|
        m.map.contains_key(k) ==> {
            &&& (#[trigger] m.map[k]).refs_below(m.records.len() as int)
            &&& m.map[k].key() == k
            &&& !m.map[k].is_canonical()
        }
}

/// A consistent provenance state: consistent records, consistent map.
pub open spec fn wf(m: ProvenanceModel) -> bool {
    records_wf(m.records) && map_wf(m)
}

/// What resolving a span against a provenance map yields: the mapped span
/// for the span's canonicalized location if one is stored, else the span
/// itself.
pub open spec fn resolve_in(map: Map<u64, Span>, s: Span) -> Span {
    if map.contains_key(s.key()) {
        map[s.key()]
    } else {
        s
    }
}

/// The span the tracker currently reports for a call site: the stored span
/// when the call site is an original-source location that was already
/// rewritten in an earlier round, else the call site itself.
pub open spec fn call_site_resolution(m: ProvenanceModel, cs: Span) -> Span {
    if cs.is_canonical() && m.map.contains_key(cs.key()) {
        m.map[cs.key()]
    } else {
        cs
    }
}

/// What registering a span does to the provenance state.
///
/// Nothing for original-source spans. Otherwise the span's record is looked
/// up (`None` if it does not exist). The first time a call site's location
/// is rewritten, the span is stored under its canonicalized key. When the
/// location was already rewritten in an earlier round, the new registration
/// chains through the stored earlier-round span: a fresh record is
/// registered whose call site is that earlier span and whose callee is the
/// current callee, and the location's entry is replaced by the span carrying
/// the fresh identity.
pub open spec fn register_model(m: ProvenanceModel, s: Span) -> Option<ProvenanceModel> {
    match s.expn {
        ExpnId::NoExpansion => Some(m),
        ExpnId::Expansion(i) => {
            if i >= m.records.len() {
                None
            } else {
                let info = m.records[i as int];
                if info.call_site.is_canonical() && m.map.contains_key(info.call_site.key()) {
                    let earlier = m.map[info.call_site.key()];
                    Some(
                        ProvenanceModel {
                            records: m.records.push(
                                ExpnRecord { call_site: earlier, callee: info.callee },
                            ),
                            map: m.map.insert(
                                s.key(),
                                Span {
                                    lo: s.lo,
                                    hi: s.hi,
                                    expn: ExpnId::Expansion(m.records.len() as usize),
                                },
                            ),
                        },
                    )
                } else {
                    Some(ProvenanceModel { records: m.records, map: m.map.insert(s.key(), s) })
                }
            }
        },
    }
}

/// Registering preserves consistency of the provenance state.
pub proof fn lemma_register_preserves_wf(m: ProvenanceModel, s: Span, m2: ProvenanceModel)
    requires
        wf(m),
        register_model(m, s) == Some(m2),
    ensures
        wf(m2),
{
    match s.expn {
        ExpnId::NoExpansion => {},
        ExpnId::Expansion(i) => {
            let info = m.records[i as int];
            if info.call_site.is_canonical() && m.map.contains_key(info.call_site.key()) {
                let pushed = ExpnRecord { call_site: m.map[info.call_site.key()], callee: info.callee };
                assert forall|j: int| 0 <= j < m2.records.len() implies (#[trigger] m2.records[j]).call_site.refs_below(j)
                    && m2.records[j].callee.refs_below(j) by {
                    if j < m.records.len() {
                        assert(m2.records[j] == m.records[j]);
                    } else {
                        assert(m2.records[j] == pushed);
                    }
                }
            }
        },
    }
}

/// Chaining correctness, one registration at a time: after a span is
/// registered, resolving it yields a span whose provenance chain roots where
/// the chain of its call site's current resolution roots. Repeated over the
/// rounds of a run, this is what keeps a twice- and thrice-rewritten
/// location traceable to its original call site.
pub proof fn lemma_register_preserves_root(
    m: ProvenanceModel,
    s: Span,
    i: usize,
    m2: ProvenanceModel,
)
    requires
        wf(m),
        m.records.len() <= usize::MAX,
        s.expn == ExpnId::Expansion(i),
        register_model(m, s) == Some(m2),
    ensures
        chain_root(m2.records, resolve_in(m2.map, s)) == chain_root(
            m.records,
            call_site_resolution(m, m.records[i as int].call_site),
        ),
{
    let info = m.records[i as int];
    let cs = info.call_site;
    if cs.is_canonical() && m.map.contains_key(cs.key()) {
        let earlier = m.map[cs.key()];
        let fresh = Span { lo: s.lo, hi: s.hi, expn: ExpnId::Expansion(m.records.len() as usize) };
        assert(resolve_in(m2.map, s) == fresh);
        assert(chain_root(m2.records, fresh) == chain_root(m2.records, earlier));
        lemma_chain_root_stable(m.records, m2.records, earlier);
    } else {
        assert(resolve_in(m2.map, s) == s);
        assert(chain_root(m2.records, s) == chain_root(m.records, cs));
    }
}

/// Chaining correctness in the two-round shape: a call-site span `s0` of
/// the original source was rewritten in an earlier round to `s1`; a later
/// round expands an invocation at that location again, producing raw span
/// `raw` at `s0`'s coordinates, whose record names `s0` (an engine that
/// mints round-local records) or `s1` (an engine that saw the rewritten
/// tree) as its call site. After registering `raw`, the span reported for
/// `s0`'s location has a provenance chain that still roots at `s0`.
pub proof fn lemma_chaining_roots_at_original(
    m: ProvenanceModel,
    s0: Span,
    s1: Span,
    raw: Span,
    i: usize,
    m2: ProvenanceModel,
)
    requires
        wf(m),
        m.records.len() <= usize::MAX,
        s0.is_canonical(),
        m.map.contains_key(s0.key()),
        m.map[s0.key()] == s1,
        chain_root(m.records, s1) == s0,
        raw.lo == s0.lo,
        raw.hi == s0.hi,
        raw.expn == ExpnId::Expansion(i),
        m.records[i as int].call_site == s0 || m.records[i as int].call_site == s1,
        register_model(m, raw) == Some(m2),
    ensures
        m2.map.contains_key(s0.key()),
        resolve_in(m2.map, raw) == m2.map[s0.key()],
        chain_root(m2.records, m2.map[s0.key()]) == s0,
{
    crate::span::lemma_key_of_range(raw, s0);
    lemma_register_preserves_root(m, raw, i, m2);
    let cs = m.records[i as int].call_site;
    if cs == s1 {
        assert(!cs.is_canonical());
        assert(call_site_resolution(m, cs) == s1);
    }
}

/// Owns the provenance map for one run. `register` commits what a rewritten
/// span means for its location; `resolve` answers the current span for a
/// location, a no-op passthrough for anything never registered.
pub struct ProvenanceTracker {
    map: HashMap<u64, Span>,
}

impl View for ProvenanceTracker {
    type V = Map<u64, Span>;

    closed spec fn view(&self) -> Map<u64, Span> {
        self.map@
    }
}

impl ProvenanceTracker {
    /// An empty tracker: no location has been rewritten yet.
    pub fn new() -> (t: ProvenanceTracker)
        ensures
            t@ == Map::<u64, Span>::empty(),
    {
        ProvenanceTracker { map: HashMap::new() }
    }

    /// Registers a newly created expansion span, per `register_model`:
    /// a no-op for original-source spans; fatal when the span's expansion
    /// identity has no record in the registry; otherwise stores the span for
    /// its location, chaining through the earlier-round span when the
    /// location was already rewritten.
    pub fn register(&mut self, registry: &mut ExpnRegistry, span: Span) -> (result: Result<
        (),
        ProvenanceInconsistency,
    >)
        ensures
            ({
                let pre = ProvenanceModel { records: old(registry)@, map: old(self)@ };
                match register_model(pre, span) {
                    Some(post) => result is Ok && final(registry)@ == post.records && final(self)@
                        == post.map,
                    None => {
                        &&& result == Err::<(), ProvenanceInconsistency>(
                            ProvenanceInconsistency { identity: span.expn->Expansion_0 },
                        )
                        &&& final(registry)@ == old(registry)@
                        &&& final(self)@ == old(self)@
                    },
                }
            }),
    {
        match span.expn {
            ExpnId::NoExpansion => Ok(()),
            ExpnId::Expansion(i) => {
                match registry.expansion_info(span.expn) {
                    None => Err(ProvenanceInconsistency { identity: i }),
                    Some(info) => {
                        let cs = info.call_site;
                        let cs_canonical = match cs.expn {
                            ExpnId::NoExpansion => true,
                            ExpnId::Expansion(_) => false,
                        };
                        let cs_key = cs.compute_key();
                        if cs_canonical && self.map.contains_key(&cs_key) {
                            let earlier = match self.map.get(&cs_key) {
                                Some(e) => *e,
                                None => unreached(),
                            };
                            let fresh = registry.record_expansion(
                                ExpnRecord { call_site: earlier, callee: info.callee },
                            );
                            self.map.insert(
                                span.compute_key(),
                                Span { lo: span.lo, hi: span.hi, expn: fresh },
                            );
                            Ok(())
                        } else {
                            self.map.insert(span.compute_key(), span);
                            Ok(())
                        }
                    },
                }
            },
        }
    }

    /// Resolves a span to the current canonical span for its location:
    /// the mapped span if the location was registered, else the span itself.
    pub fn resolve(&self, span: Span) -> (r: Span)
        ensures
            r == resolve_in(self@, span),
    {
        let key = span.compute_key();
        match self.map.get(&key) {
            Some(s) => *s,
            None => span,
        }
    }
}

} // verus!
