//! Source spans: a half-open byte range together with an expansion identity
//! that records which macro substitution (if any) produced the text.

use vstd::prelude::*;

verus! {

/// Identity of the macro substitution that produced a piece of text.
///
/// `NoExpansion` marks text that came verbatim from the original source
/// file; `Expansion(i)` refers to record `i` of the expansion registry.
#[derive(Clone, Copy, Debug, PartialEq, Eq, Structural)]
pub enum ExpnId {
    NoExpansion,
    Expansion(usize),
}

/// A source location: start offset, end offset, and the expansion identity
/// of the substitution that produced it. Spans are immutable values,
/// compared by `(lo, hi, expn)`.
#[derive(Clone, Copy, Debug, PartialEq, Eq, Structural)]
pub struct Span {
    pub lo: u32,
    pub hi: u32,
    pub expn: ExpnId,
}

impl Span {
    /// A span of the original, un-expanded source text.
    pub fn source(lo: u32, hi: u32) -> (s: Span)
        ensures
            s == (Span { lo, hi, expn: ExpnId::NoExpansion }),
    {
        Span { lo, hi, expn: ExpnId::NoExpansion }
    }

    /// Whether this span is its own canonicalized form: text that came
    /// verbatim from the original source. The canonicalized form of a span
    /// keeps its range and forces the expansion identity to `NoExpansion`.
    pub open spec fn is_canonical(self) -> bool {
        self.expn is NoExpansion
    }

    /// The provenance-map key of this span: its byte range packed into one
    /// integer, which canonicalizes away the expansion identity.
    pub open spec fn key(self) -> u64 {
        ((self.lo as int) * 0x1_0000_0000 + (self.hi as int)) as u64
    }

    /// Computes `self.key()`.
    pub fn compute_key(&self) -> (k: u64)
        ensures
            k == self.key(),
    {
        (self.lo as u64) * 0x1_0000_0000 + (self.hi as u64)
    }

    /// Whether every expansion identity this span mentions is below `n`,
    /// i.e. the span refers only to registry records that already exist
    /// when the registry holds `n` records.
    pub open spec fn refs_below(self, n: int) -> bool {
        self.expn matches ExpnId::Expansion(i) ==> i < n
    }
}

/// Two spans with the same byte range share a key.
pub proof fn lemma_key_of_range(a: Span, b: Span)
    requires
        a.lo == b.lo,
        a.hi == b.hi,
    ensures
        a.key() == b.key(),
{
}

} // verus!
