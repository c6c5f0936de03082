//! The expansion identity registry: an append-only list of expansion
//! records, one per macro-invocation-to-output substitution. The identity
//! `ExpnId::Expansion(i)` names record `i`.

use vstd::prelude::*;

use crate::span::{ExpnId, Span};

verus! {

/// One macro substitution: where the invocation sat (`call_site`) and the
/// span inside the macro's definition that produced the output (`callee`).
#[derive(Clone, Copy, Debug, PartialEq, Eq, Structural)]
pub struct ExpnRecord {
    pub call_site: Span,
    pub callee: Span,
}

/// A consistent record list: every record refers only to records that were
/// registered before it, so every provenance chain is finite.
pub open spec fn records_wf(records: Seq<ExpnRecord>) -> bool {
    forall|i: int|
        0 <= i < records.len() ==> (#[trigger] records[i]).call_site.refs_below(i)
            && records[i].callee.refs_below(i)
}

/// The rank of a span's expansion identity, used to show that provenance
/// chains through a consistent registry end.
pub open spec fn expn_rank(s: Span) -> nat {
    match s.expn {
        ExpnId::NoExpansion => 0,
        ExpnId::Expansion(i) => i as nat + 1,
    }
}

/// The root of a span's provenance chain: follow the span's expansion
/// identity to its record's call site, and repeat, until a span of the
/// original source is reached. A span whose identity has no record, or
/// whose record refers forward, is its own root (a consistent registry,
/// `records_wf`, has no such record).
pub open spec fn chain_root(records: Seq<ExpnRecord>, s: Span) -> Span
    decreases expn_rank(s),
{
    match s.expn {
        ExpnId::NoExpansion => s,
        ExpnId::Expansion(i) => {
            if i < records.len() && records[i as int].call_site.refs_below(i as int) {
                chain_root(records, records[i as int].call_site)
            } else {
                s
            }
        },
    }
}

/// Appending records never changes the chain root of a span that refers
/// only to the records already present.
pub proof fn lemma_chain_root_stable(records: Seq<ExpnRecord>, longer: Seq<ExpnRecord>, s: Span)
    requires
        records_wf(records),
        records.len() <= longer.len(),
        forall|i: int| 0 <= i < records.len() ==> records[i] == longer[i],
        s.refs_below(records.len() as int),
    ensures
        chain_root(longer, s) == chain_root(records, s),
    decreases expn_rank(s),
{
    match s.expn {
        ExpnId::NoExpansion => {},
        ExpnId::Expansion(i) => {
            lemma_chain_root_stable(records, longer, records[i as int].call_site);
        },
    }
}

/// The append-only list of expansion records; identities are indices into
/// the list. Owned by the round driver for the run's lifetime; the external
/// expansion engine registers one record per substitution it performs.
pub struct ExpnRegistry {
    records: Vec<ExpnRecord>,
}

impl View for ExpnRegistry {
    type V = Seq<ExpnRecord>;

    closed spec fn view(&self) -> Seq<ExpnRecord> {
        self.records@
    }
}

impl ExpnRegistry {
    /// An empty registry: no substitution has happened yet.
    pub fn new() -> (r: ExpnRegistry)
        ensures
            r@ == Seq::<ExpnRecord>::empty(),
    {
        ExpnRegistry { records: Vec::new() }
    }

    /// How many records have been registered.
    pub fn count(&self) -> (n: usize)
        ensures
            n == self@.len(),
    {
        self.records.len()
    }

    /// Registers a substitution and hands out its fresh identity.
    pub fn record_expansion(&mut self, record: ExpnRecord) -> (id: ExpnId)
        ensures
            final(self)@ == old(self)@.push(record),
            id == ExpnId::Expansion(old(self)@.len() as usize),
    {
        let n = self.records.len();
        self.records.push(record);
        ExpnId::Expansion(n)
    }

    /// The record behind an expansion identity: `None` for `NoExpansion`
    /// (original source text has no record) and for an identity that was
    /// never handed out.
    pub fn expansion_info(&self, id: ExpnId) -> (r: Option<ExpnRecord>)
        ensures
            r == (match id {
                ExpnId::NoExpansion => None::<ExpnRecord>,
                ExpnId::Expansion(i) => if i < self@.len() {
                    Some(self@[i as int])
                } else {
                    None
                },
            }),
    {
        match id {
            ExpnId::NoExpansion => None,
            ExpnId::Expansion(i) => {
                if i < self.records.len() {
                    Some(self.records[i])
                } else {
                    None
                }
            },
        }
    }

    /// Whether every expansion identity the span mentions is one this
    /// registry has handed out.
    pub fn knows_span(&self, s: &Span) -> (b: bool)
        ensures
            b == s.refs_below(self@.len() as int),
    {
        match s.expn {
            ExpnId::NoExpansion => true,
            ExpnId::Expansion(i) => i < self.records.len(),
        }
    }
}

} // verus!
