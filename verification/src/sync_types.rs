//! Types shared by the header queue and the synchronization scheduler.

use vstd::prelude::*;

verus! {

/// A 256-bit header hash, held as its high and low halves.
#[derive(Clone, Copy, Debug, PartialEq, Eq, Structural, Hash, PartialOrd, Ord)]
pub struct H256(pub u128, pub u128);

impl H256 {
    /// The hash whose low 64 bits are `value` and whose other bits are zero.
    pub fn from_low_u64(value: u64) -> (r: H256)
        ensures
            r == H256(0, value as u128),
    {
        H256(0, value as u128)
    }
}

/// Identifies a header by its number and its hash.
///
/// Two headers of one number and different hashes belong to different forks.
#[derive(Clone, Copy, Debug, PartialEq, Eq, Structural, Hash, PartialOrd, Ord)]
pub struct HeaderId(pub u64, pub H256);

/// Where a header stands on its way from the source chain to the target chain.
#[derive(Clone, Copy, Debug, PartialEq, Eq, Structural)]
pub enum HeaderStatus {
    /// The header is not known to the queue.
    Unknown,
    /// The header is queued, and whether the target knows its parent is being asked.
    MaybeOrphan,
    /// The header is queued, and the target does not know its parent.
    Orphan,
    /// The header may be submitted once it is known whether it needs extra data.
    MaybeExtra,
    /// The header needs extra data, which has not arrived yet.
    Extra,
    /// The header may be submitted.
    Ready,
    /// The header was submitted and the target has not confirmed it yet.
    Submitted,
    /// The target knows the header.
    Synced,
}

/// What the queue reads of a header of the source chain.
///
/// The two spec functions say what the two methods return. An implementation
/// that is verified states them; one that is not leaves them as they are, and
/// is trusted to return the same id and the same parent hash at every call.
pub trait SourceHeader {
    /// The header's number and hash: what `id` returns.
    open spec fn spec_id(&self) -> HeaderId {
        arbitrary()
    }

    /// The hash of the header's parent: what `parent_hash` returns.
    open spec fn spec_parent_hash(&self) -> H256 {
        arbitrary()
    }

    /// Returns the header's number and hash.
    fn id(&self) -> (r: HeaderId)
        ensures
            r == self.spec_id(),
    ;

    /// Returns the hash of the header's parent.
    fn parent_hash(&self) -> (r: H256)
        ensures
            r == self.spec_parent_hash(),
    ;
}

/// A pair of chains between which headers are relayed.
///
/// The spec function says what `estimate_size` returns. An implementation
/// that is verified states it; one that is not leaves it as it is, and is
/// trusted to return the same size for the same header at every call.
pub trait HeadersSyncPipeline: Clone + Copy + core::fmt::Debug {
    /// Name of the source chain.
    const SOURCE_NAME: &'static str;

    /// Name of the target chain.
    const TARGET_NAME: &'static str;

    /// Header of the source chain.
    type Header: SourceHeader + Clone + core::fmt::Debug;

    /// Data that the target may need beside a header.
    type Extra: Clone + core::fmt::Debug;

    /// The estimated size of the header once encoded for submission: what
    /// `estimate_size` returns.
    open spec fn spec_estimate_size(header: &QueuedHeader<Self>) -> usize {
        arbitrary()
    }

    /// Estimates the size of the header once encoded for submission.
    fn estimate_size(header: &QueuedHeader<Self>) -> (r: usize)
        ensures
            r == Self::spec_estimate_size(header),
    ;
}

/// The id of the parent of a header with the given id and parent hash.
/// A header of number zero has no parent.
pub open spec fn parent_of(id: HeaderId, parent_hash: H256) -> Option<HeaderId> {
    if id.0 == 0 {
        None
    } else {
        Some(HeaderId((id.0 - 1) as u64, parent_hash))
    }
}

/// A header as the queue holds it, with its extra data once that has arrived.
#[derive(Debug, PartialEq)]
pub struct QueuedHeader<P: HeadersSyncPipeline> {
    /// The header as it came from the source.
    pub header: P::Header,
    /// The extra data of the header, once it has arrived.
    pub extra: Option<P::Extra>,
}

impl<P: HeadersSyncPipeline> QueuedHeader<P> {
    /// The header's number and hash.
    pub open spec fn spec_id(&self) -> HeaderId {
        self.header.spec_id()
    }

    /// The id of the header's parent, if it has one.
    pub open spec fn spec_parent_id(&self) -> Option<HeaderId> {
        parent_of(self.header.spec_id(), self.header.spec_parent_hash())
    }

    /// Wraps a header that has no extra data yet.
    pub fn new(header: P::Header) -> (r: Self)
        ensures
            r.header == header,
            r.extra.is_none(),
    {
        QueuedHeader { header, extra: None }
    }

    /// Returns the header's number and hash.
    pub fn id(&self) -> (r: HeaderId)
        ensures
            r == self.spec_id(),
    {
        self.header.id()
    }

    /// Returns the id of the header's parent, if it has one.
    pub fn parent_id(&self) -> (r: Option<HeaderId>)
        ensures
            r == self.spec_parent_id(),
    {
        let id = self.header.id();
        if id.0 == 0 {
            None
        } else {
            Some(HeaderId(id.0 - 1, self.header.parent_hash()))
        }
    }

    /// Returns the header itself.
    pub fn header(&self) -> (r: &P::Header)
        ensures
            *r == self.header,
    {
        &self.header
    }

    /// Returns the extra data, if it has arrived.
    pub fn extra(&self) -> (r: &Option<P::Extra>)
        ensures
            *r == self.extra,
    {
        &self.extra
    }

    /// Attaches extra data to the header.
    pub fn set_extra(self, extra: P::Extra) -> (r: Self)
        ensures
            r.header == self.header,
            r.extra == Some(extra),
    {
        QueuedHeader { header: self.header, extra: Some(extra) }
    }
}

} // verus!
