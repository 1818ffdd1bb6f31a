//! Data model of quota directives and of the aggregated quota request.

use vstd::prelude::*;

verus! {

/// The kind of filesystem resource a quota directive limits.
#[derive(Clone, Copy, Debug, PartialEq, Eq, Structural)]
pub enum ResourceKind {
    Blocks,
    Inodes,
}

/// One parsed quota directive: a soft and a hard limit for one resource kind.
#[derive(Clone, Copy, Debug, PartialEq, Eq, Structural)]
pub struct QuotaDirective {
    pub resource: ResourceKind,
    pub soft: u64,
    pub hard: u64,
}

/// The aggregate of at most one directive per resource kind, built by folding
/// directives left to right. A presence flag per kind records whether that
/// kind was set; the limits of an unset kind are zero and must not be applied.
#[derive(Clone, Copy, Debug, PartialEq, Eq, Structural)]
pub struct QuotaRequest {
    pub blocks_set: bool,
    pub bsoft: u64,
    pub bhard: u64,
    pub inodes_set: bool,
    pub isoft: u64,
    pub ihard: u64,
}

impl QuotaRequest {
    /// The request that sets nothing: no presence flag, all limits zero.
    pub open spec fn spec_empty() -> QuotaRequest {
        QuotaRequest {
            blocks_set: false,
            bsoft: 0,
            bhard: 0,
            inodes_set: false,
            isoft: 0,
            ihard: 0,
        }
    }

    /// Build the empty request: applying it changes nothing for either kind.
    pub fn empty() -> (r: QuotaRequest)
        ensures
            r == QuotaRequest::spec_empty(),
    {
        QuotaRequest {
            blocks_set: false,
            bsoft: 0,
            bhard: 0,
            inodes_set: false,
            isoft: 0,
            ihard: 0,
        }
    }

    /// The request after folding in one more directive: the directive's kind
    /// is overwritten (last writer wins), the other kind is untouched.
    pub open spec fn spec_apply(self, d: QuotaDirective) -> QuotaRequest {
        match d.resource {
            ResourceKind::Blocks => QuotaRequest {
                blocks_set: true,
                bsoft: d.soft,
                bhard: d.hard,
                ..self
            },
            ResourceKind::Inodes => QuotaRequest {
                inodes_set: true,
                isoft: d.soft,
                ihard: d.hard,
                ..self
            },
        }
    }

    /// Fold one directive into the request, overwriting any earlier directive
    /// of the same kind and leaving the other kind untouched.
    pub fn apply(self, d: QuotaDirective) -> (r: QuotaRequest)
        ensures
            r == self.spec_apply(d),
    {
        match d.resource {
            ResourceKind::Blocks => QuotaRequest {
                blocks_set: true,
                bsoft: d.soft,
                bhard: d.hard,
                ..self
            },
            ResourceKind::Inodes => QuotaRequest {
                inodes_set: true,
                isoft: d.soft,
                ihard: d.hard,
                ..self
            },
        }
    }
}

} // verus!
