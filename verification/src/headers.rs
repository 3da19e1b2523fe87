//! The queue of headers on their way to the target chain.
//!
//! Every header that the queue holds has one status. The queue keeps its
//! headers in the order of their numbers, and headers of one number in the
//! order in which they arrived.

use crate::sync_types::{HeaderId, HeaderStatus, HeadersSyncPipeline, QueuedHeader, SourceHeader};
use vstd::prelude::*;

verus! {

/// A header of the queue with its status.
#[derive(Debug)]
pub struct Entry<P: HeadersSyncPipeline> {
    /// The header.
    pub header: QueuedHeader<P>,
    /// Where the header stands on its way to the target.
    pub status: HeaderStatus,
}

impl<P: HeadersSyncPipeline> Entry<P> {
    /// The id of the entry's header.
    pub open spec fn id(&self) -> HeaderId {
        self.header.spec_id()
    }

    /// The number of the entry's header.
    pub open spec fn number(&self) -> u64 {
        self.header.spec_id().0
    }
}

/// The status that a header gets when it arrives, given the status of its parent.
pub open spec fn status_on_arrival(parent: HeaderStatus) -> HeaderStatus {
    match parent {
        HeaderStatus::Unknown | HeaderStatus::MaybeOrphan => HeaderStatus::MaybeOrphan,
        HeaderStatus::Orphan => HeaderStatus::Orphan,
        _ => HeaderStatus::MaybeExtra,
    }
}

/// Whether a header of this status is held by the queue.
pub open spec fn is_queued(status: HeaderStatus) -> bool {
    status != HeaderStatus::Unknown && status != HeaderStatus::Synced
}

/// Whether the ancestry of a header of this status has been found good:
/// the header is queued and past the question of its parent.
pub open spec fn is_past_ancestry(status: HeaderStatus) -> bool {
    status == HeaderStatus::MaybeExtra || status == HeaderStatus::Extra || status
        == HeaderStatus::Ready || status == HeaderStatus::Submitted
}

/// Whether a header of this status can be built upon:
/// its ancestry has been found good, or the target knows it.
pub open spec fn is_resolved(status: HeaderStatus) -> bool {
    is_past_ancestry(status) || status == HeaderStatus::Synced
}

/// Whether a header of this status waits for its ancestry to be found good.
pub open spec fn awaits_ancestry(status: HeaderStatus, orphans_too: bool) -> bool {
    status == HeaderStatus::MaybeOrphan || (orphans_too && status == HeaderStatus::Orphan)
}

/// The headers of the entries that have the given status, in the order of the entries.
pub open spec fn headers_with_status<P: HeadersSyncPipeline>(
    entries: Seq<Entry<P>>,
    status: HeaderStatus,
) -> Seq<QueuedHeader<P>>
    decreases entries.len(),
{
    if entries.len() == 0 {
        Seq::empty()
    } else if entries.last().status == status {
        headers_with_status(entries.drop_last(), status).push(entries.last().header)
    } else {
        headers_with_status(entries.drop_last(), status)
    }
}

/// Whether `taken` holds the headers that a walk along `all` takes for as long as `f` accepts them.
pub open spec fn taken_while<P: HeadersSyncPipeline, F: Fn(&QueuedHeader<P>) -> bool>(
    all: Seq<QueuedHeader<P>>,
    f: F,
    taken: Seq<&QueuedHeader<P>>,
) -> bool {
    &&& taken.len() <= all.len()
    &&& forall|i: int|
        0 <= i < taken.len() ==> *(#[trigger] taken[i]) == all[i] && call_ensures(
            f,
            (taken[i],),
            true,
        )
    &&& taken.len() < all.len() ==> call_ensures(f, (&all[taken.len() as int],), false)
}

/// The queue as a mathematical value.
pub struct QueueView<P: HeadersSyncPipeline> {
    /// The queued headers with their statuses, in queue order.
    pub entries: Seq<Entry<P>>,
    /// The ids of the headers that the target is known to have.
    pub synced: Set<HeaderId>,
    /// Headers at or below this number are neither kept nor accepted.
    pub prune_border: u64,
}

impl<P: HeadersSyncPipeline> QueueView<P> {
    /// The queue that holds nothing.
    pub open spec fn empty() -> Self {
        QueueView { entries: Seq::empty(), synced: Set::empty(), prune_border: 0 }
    }

    /// The numbers of the entries never decrease along the queue.
    pub open spec fn sorted(self) -> bool {
        forall|i: int, j: int|
            0 <= i <= j < self.entries.len() ==> #[trigger] self.entries[i].number()
                <= #[trigger] self.entries[j].number()
    }

    /// No two entries hold headers of one id.
    pub open spec fn distinct(self) -> bool {
        forall|i: int, j: int|
            0 <= i < self.entries.len() && 0 <= j < self.entries.len() && i != j
                ==> #[trigger] self.entries[i].id() != #[trigger] self.entries[j].id()
    }

    /// What holds of every queue: it is in order, it holds each id at most
    /// once and under a status of a queued header, and it holds no header
    /// at or below its prune border.
    pub open spec fn wf(self) -> bool {
        &&& self.sorted()
        &&& self.distinct()
        &&& forall|i: int|
            0 <= i < self.entries.len() ==> is_queued((#[trigger] self.entries[i]).status)
        &&& forall|i: int|
            0 <= i < self.entries.len() ==> (#[trigger] self.entries[i]).number()
                > self.prune_border
    }

    /// Whether the queue holds a header of this id.
    pub open spec fn holds(self, id: HeaderId) -> bool {
        exists|i: int| 0 <= i < self.entries.len() && (#[trigger] self.entries[i]).id() == id
    }

    /// The place of the header of this id in the queue, if it is held.
    pub open spec fn index_of(self, id: HeaderId) -> int {
        choose|i: int| 0 <= i < self.entries.len() && (#[trigger] self.entries[i]).id() == id
    }

    /// The status of the header of this id.
    pub open spec fn status(self, id: HeaderId) -> HeaderStatus {
        if self.holds(id) {
            self.entries[self.index_of(id)].status
        } else if self.synced.contains(id) {
            HeaderStatus::Synced
        } else {
            HeaderStatus::Unknown
        }
    }

    /// The status of the parent of a header; `Unknown` for a header without parent.
    pub open spec fn parent_status(self, header: QueuedHeader<P>) -> HeaderStatus {
        match header.spec_parent_id() {
            Some(parent) => self.status(parent),
            None => HeaderStatus::Unknown,
        }
    }

    /// The headers of the given status, in queue order.
    pub open spec fn in_status(self, status: HeaderStatus) -> Seq<QueuedHeader<P>> {
        headers_with_status(self.entries, status)
    }

    /// The greatest number of a queued header; zero for an empty queue.
    pub open spec fn best_queued_number(self) -> u64 {
        if self.entries.len() == 0 {
            0
        } else {
            self.entries.last().number()
        }
    }

    /// Whether `k` parts the queue into the entries below `number` and those at or above it.
    pub open spec fn parts_at(self, number: int, k: int) -> bool {
        &&& 0 <= k <= self.entries.len()
        &&& forall|i: int| 0 <= i < k ==> (#[trigger] self.entries[i]).number() < number
        &&& forall|i: int|
            k <= i < self.entries.len() ==> (#[trigger] self.entries[i]).number() >= number
    }

    /// How many entries have a number below `number`.
    pub open spec fn count_below(self, number: int) -> int {
        choose|k: int| self.parts_at(number, k)
    }

    /// The queue after a header has arrived from the source.
    ///
    /// A header that is already known, or that lies at or below the prune border,
    /// changes nothing. Any other header joins the queue behind the headers
    /// of its number, with the status that its parent's status gives it.
    pub open spec fn header_response(self, header: P::Header) -> Self {
        let queued = QueuedHeader::<P> { header, extra: None };
        let id = queued.spec_id();
        if self.status(id) != HeaderStatus::Unknown || id.0 <= self.prune_border {
            self
        } else {
            let entry = Entry {
                header: queued,
                status: status_on_arrival(self.parent_status(queued)),
            };
            QueueView { entries: self.entries.insert(self.count_below(id.0 + 1), entry), ..self }
        }
    }

    /// The queue with the header of this id moved from one status to another;
    /// the same queue if it holds no header of this id in the first status.
    pub open spec fn with_status_changed(
        self,
        id: HeaderId,
        from: HeaderStatus,
        to: HeaderStatus,
    ) -> Self {
        if self.status(id) == from && self.holds(id) {
            let i = self.index_of(id);
            QueueView {
                entries: self.entries.update(
                    i,
                    Entry { header: self.entries[i].header, status: to },
                ),
                ..self
            }
        } else {
            self
        }
    }

    /// The queue after it was told whether the header of this id needs extra data.
    pub open spec fn maybe_extra_response(self, id: HeaderId, needs_extra: bool) -> Self {
        self.with_status_changed(
            id,
            HeaderStatus::MaybeExtra,
            if needs_extra {
                HeaderStatus::Extra
            } else {
                HeaderStatus::Ready
            },
        )
    }

    /// The queue after the extra data of the header of this id has arrived.
    pub open spec fn extra_response(self, id: HeaderId, extra: P::Extra) -> Self {
        if self.status(id) == HeaderStatus::Extra && self.holds(id) {
            let i = self.index_of(id);
            let header = QueuedHeader::<P> {
                header: self.entries[i].header.header,
                extra: Some(extra),
            };
            QueueView {
                entries: self.entries.update(i, Entry { header, status: HeaderStatus::Ready }),
                ..self
            }
        } else {
            self
        }
    }

    /// The queue after the headers of these ids were submitted, one after the other.
    pub open spec fn headers_submitted(self, ids: Seq<HeaderId>) -> Self
        decreases ids.len(),
    {
        if ids.len() == 0 {
            self
        } else {
            self.headers_submitted(ids.drop_last()).with_status_changed(
                ids.last(),
                HeaderStatus::Ready,
                HeaderStatus::Submitted,
            )
        }
    }

    /// Whether the header of this id waits for its ancestry and descends from
    /// `root` through headers that wait likewise. With `orphans_too` a header
    /// waits in `MaybeOrphan` or `Orphan`, without it in `MaybeOrphan` only.
    pub open spec fn follows(self, root: HeaderId, orphans_too: bool, id: HeaderId) -> bool
        decreases id.0,
    {
        if self.holds(id) && awaits_ancestry(
            self.entries[self.index_of(id)].status,
            orphans_too,
        ) {
            match self.entries[self.index_of(id)].header.spec_parent_id() {
                Some(parent) => parent == root || self.follows(root, orphans_too, parent),
                None => false,
            }
        } else {
            false
        }
    }

    /// The queue with every header that follows `root` moved to the status `to`.
    pub open spec fn with_descendants_moved(
        self,
        root: HeaderId,
        orphans_too: bool,
        to: HeaderStatus,
    ) -> Self {
        QueueView {
            entries: Seq::new(
                self.entries.len(),
                |i: int|
                    Entry {
                        header: self.entries[i].header,
                        status: if self.follows(root, orphans_too, self.entries[i].id()) {
                            to
                        } else {
                            self.entries[i].status
                        },
                    },
            ),
            ..self
        }
    }

    /// The queue after the target has said whether it knows the header of this id.
    ///
    /// If it does not, the headers that wait in `MaybeOrphan` and descend
    /// from `id` become `Orphan`. If it does, the headers that wait in
    /// `MaybeOrphan` or `Orphan` and descend from `id` become `MaybeExtra`,
    /// and `id`, if nothing was known of it, is remembered as known to the target.
    pub open spec fn maybe_orphan_response(self, id: HeaderId, known: bool) -> Self {
        if known {
            let moved = self.with_descendants_moved(id, true, HeaderStatus::MaybeExtra);
            if self.status(id) == HeaderStatus::Unknown {
                QueueView { synced: self.synced.insert(id), ..moved }
            } else {
                moved
            }
        } else {
            self.with_descendants_moved(id, false, HeaderStatus::Orphan)
        }
    }

    /// Whether `id` is `top` or an ancestor of `top` to which a line of
    /// queued headers leads down from `top`.
    pub open spec fn on_chain(self, top: HeaderId, id: HeaderId) -> bool
        decreases top.0,
    {
        if self.holds(top) {
            id == top || match self.entries[self.index_of(top)].header.spec_parent_id() {
                Some(parent) => self.on_chain(parent, id),
                None => false,
            }
        } else {
            false
        }
    }

    /// Holds of the entries that are not on the chain of `top`.
    pub open spec fn off_chain(self, top: HeaderId) -> spec_fn(Entry<P>) -> bool {
        |entry: Entry<P>| !self.on_chain(top, entry.id())
    }

    /// The queue after the target has come to know `top`: `top` and the
    /// queued headers on its chain are known to the target and leave the queue.
    pub open spec fn with_chain_synced(self, top: HeaderId) -> Self {
        QueueView {
            entries: self.entries.filter(self.off_chain(top)),
            synced: Set::new(
                |id: HeaderId| self.synced.contains(id) || id == top || self.on_chain(top, id),
            ),
            ..self
        }
    }

    /// The queue after the target has reported the header of this id as its best.
    ///
    /// The header and the queued headers on its chain are known to the target
    /// and leave the queue. The headers that wait in `MaybeOrphan` or
    /// `Orphan` and descend from it become `MaybeExtra`.
    pub open spec fn target_best_header_response(self, id: HeaderId) -> Self {
        self.with_chain_synced(id).with_descendants_moved(id, true, HeaderStatus::MaybeExtra)
    }

    /// The queue after everything at or below `border` was dropped. The border never moves back.
    pub open spec fn prune(self, border: u64) -> Self {
        if border <= self.prune_border {
            self
        } else {
            QueueView {
                entries: self.entries.skip(self.count_below(border + 1)),
                synced: self.synced.filter(|id: HeaderId| id.0 > border),
                prune_border: border,
            }
        }
    }
}

/// The headers of a longer queue start with the headers of each of its beginnings.
pub proof fn lemma_headers_with_status_prefix<P: HeadersSyncPipeline>(
    entries: Seq<Entry<P>>,
    status: HeaderStatus,
    i: int,
)
    requires
        0 <= i <= entries.len(),
    ensures
        headers_with_status(entries.take(i), status).len() <= headers_with_status(
            entries,
            status,
        ).len(),
        forall|k: int|
            0 <= k < headers_with_status(entries.take(i), status).len()
                ==> #[trigger] headers_with_status(entries.take(i), status)[k]
                == headers_with_status(entries, status)[k],
        i < entries.len() && entries[i].status == status ==> {
            let n = headers_with_status(entries.take(i), status).len() as int;
            n < headers_with_status(entries, status).len() && headers_with_status(
                entries,
                status,
            )[n] == entries[i].header
        },
    decreases entries.len(),
{
    if i == entries.len() {
        assert(entries.take(i) =~= entries);
    } else {
        let shorter = entries.drop_last();
        assert(shorter.take(i) =~= entries.take(i));
        lemma_headers_with_status_prefix(shorter, status, i);
        if i == entries.len() - 1 {
            assert(shorter.take(i) =~= shorter);
        }
    }
}

/// One more entry adds its header to the headers of its status and to no others.
pub proof fn lemma_headers_with_status_step<P: HeadersSyncPipeline>(
    entries: Seq<Entry<P>>,
    status: HeaderStatus,
    i: int,
)
    requires
        0 <= i < entries.len(),
    ensures
        headers_with_status(entries.take(i + 1), status) == if entries[i].status == status {
            headers_with_status(entries.take(i), status).push(entries[i].header)
        } else {
            headers_with_status(entries.take(i), status)
        },
{
    assert(entries.take(i + 1).drop_last() =~= entries.take(i));
}

impl<P: HeadersSyncPipeline> QueueView<P> {
    /// An entry of a well-formed queue is found under its id, at its place and with its status.
    pub proof fn lemma_entry_found(self, i: int)
        requires
            self.distinct(),
            0 <= i < self.entries.len(),
        ensures
            self.holds(self.entries[i].id()),
            self.index_of(self.entries[i].id()) == i,
            self.status(self.entries[i].id()) == self.entries[i].status,
    {
        let id = self.entries[i].id();
        assert(self.entries[i].id() == id);
        let k = self.index_of(id);
        assert(0 <= k < self.entries.len() && self.entries[k].id() == id);
    }

    /// In a queue in order only one place parts the entries at a number.
    pub proof fn lemma_parts_unique(self, number: int, k: int)
        requires
            self.parts_at(number, k),
        ensures
            self.count_below(number) == k,
    {
        let c = self.count_below(number);
        assert(self.parts_at(number, c));
        if c < k {
            assert(self.entries[c].number() < number);
        } else if k < c {
            assert(self.entries[k].number() < number);
        }
    }

    /// A queue without one of its entries is well-formed still.
    pub proof fn lemma_remove_wf(self, i: int)
        requires
            self.wf(),
            0 <= i < self.entries.len(),
        ensures
            (QueueView { entries: self.entries.remove(i), ..self }).wf(),
    {
        let rest = QueueView { entries: self.entries.remove(i), ..self };
        assert forall|a: int| 0 <= a < rest.entries.len() implies #[trigger] rest.entries[a]
            == self.entries[if a < i {
            a
        } else {
            a + 1
        }] by {}
        assert forall|a: int, b: int| 0 <= a <= b < rest.entries.len() implies (
        #[trigger] rest.entries[a]).number() <= (#[trigger] rest.entries[b]).number() by {
            let a0 = if a < i { a } else { a + 1 };
            let b0 = if b < i { b } else { b + 1 };
            assert(self.entries[a0].number() <= self.entries[b0].number());
        }
        assert forall|a: int, b: int|
            0 <= a < rest.entries.len() && 0 <= b < rest.entries.len() && a != b implies (
        #[trigger] rest.entries[a]).id() != (#[trigger] rest.entries[b]).id() by {
            let a0 = if a < i { a } else { a + 1 };
            let b0 = if b < i { b } else { b + 1 };
            assert(self.entries[a0].id() != self.entries[b0].id());
        }
    }

    /// A queue without its first `k` entries is well-formed still, under any border
    /// that its remaining entries reach.
    pub proof fn lemma_skip_wf(self, k: int, border: u64)
        requires
            self.wf(),
            0 <= k <= self.entries.len(),
            forall|i: int|
                k <= i < self.entries.len() ==> (#[trigger] self.entries[i]).number() > border,
        ensures
            (QueueView {
                entries: self.entries.skip(k),
                synced: self.synced.filter(|id: HeaderId| id.0 > border),
                prune_border: border,
            }).wf(),
    {
        let rest = self.entries.skip(k);
        assert forall|a: int| 0 <= a < rest.len() implies #[trigger] rest[a] == self.entries[a
            + k] by {}
        assert forall|a: int, b: int| 0 <= a <= b < rest.len() implies (#[trigger] rest[a]).number()
            <= (#[trigger] rest[b]).number() by {
            assert(self.entries[a + k].number() <= self.entries[b + k].number());
        }
        assert forall|a: int, b: int|
            0 <= a < rest.len() && 0 <= b < rest.len() && a != b implies (#[trigger] rest[a]).id()
            != (#[trigger] rest[b]).id() by {
            assert(self.entries[a + k].id() != self.entries[b + k].id());
        }
    }
}

/// Returns whether `ids` holds `id`.
fn contains_id(ids: &Vec<HeaderId>, id: &HeaderId) -> (r: bool)
    ensures
        r == ids@.contains(*id),
{
    let mut i: usize = 0;
    while i < ids.len()
        invariant
            i <= ids.len(),
            forall|k: int| 0 <= k < i ==> ids@[k] != *id,
        decreases ids.len() - i,
    {
        if ids[i] == *id {
            return true;
        }
        i += 1;
    }
    false
}

/// Adds `id` to `ids`.
fn push_id(ids: &mut Vec<HeaderId>, id: HeaderId)
    ensures
        forall|x: HeaderId| #[trigger]
            final(ids)@.contains(x) <==> old(ids)@.contains(x) || x == id,
{
    ids.push(id);
    proof {
        let a = old(ids)@;
        let b = ids@;
        assert forall|x: HeaderId| #[trigger] b.contains(x) <==> a.contains(x) || x == id by {
            if a.contains(x) {
                let k = choose|k: int| 0 <= k < a.len() && a[k] == x;
                assert(b[k] == x);
            }
            if x == id {
                assert(b[a.len() as int] == x);
            }
            if b.contains(x) {
                let k = choose|k: int| 0 <= k < b.len() && b[k] == x;
                if k < a.len() {
                    assert(a[k] == x);
                }
            }
        }
    }
}

/// The queue of headers.
#[derive(Debug)]
pub struct QueuedHeaders<P: HeadersSyncPipeline> {
    /// The queued headers with their statuses, in the order of their numbers.
    entries: Vec<Entry<P>>,
    /// The ids of the headers that the target is known to have.
    synced: Vec<HeaderId>,
    /// Headers at or below this number are neither kept nor accepted.
    prune_border: u64,
}

impl<P: HeadersSyncPipeline> View for QueuedHeaders<P> {
    type V = QueueView<P>;

    closed spec fn view(&self) -> QueueView<P> {
        QueueView {
            entries: self.entries@,
            synced: Set::new(|id: HeaderId| self.synced@.contains(id)),
            prune_border: self.prune_border,
        }
    }
}

impl<P: HeadersSyncPipeline> QueuedHeaders<P> {
    /// What holds of every queue that this module hands out.
    pub open spec fn wf(&self) -> bool {
        self@.wf()
    }

    /// Returns a queue that holds nothing.
    pub fn new() -> (r: Self)
        ensures
            r.wf(),
            r@ == QueueView::<P>::empty(),
    {
        let r = QueuedHeaders { entries: Vec::new(), synced: Vec::new(), prune_border: 0 };
        assert(r@.synced =~= Set::empty());
        r
    }

    /// Returns the number at or below which headers are neither kept nor accepted.
    pub fn prune_border(&self) -> (r: u64)
        ensures
            r == self@.prune_border,
    {
        self.prune_border
    }

    /// Returns the number of queued headers.
    pub fn total_headers(&self) -> (r: usize)
        ensures
            r == self@.entries.len(),
    {
        self.entries.len()
    }

    /// Returns the greatest number of a queued header, or zero if there is none.
    pub fn best_queued_number(&self) -> (r: u64)
        ensures
            r == self@.best_queued_number(),
    {
        let n = self.entries.len();
        if n == 0 {
            0
        } else {
            self.entries[n - 1].header.id().0
        }
    }

    /// Returns the place of the header of this id, if the queue holds it.
    fn find(&self, id: &HeaderId) -> (r: Option<usize>)
        requires
            self.wf(),
        ensures
            match r {
                Some(i) => self@.holds(*id) && i == self@.index_of(*id) && i
                    < self.entries@.len() && self.entries@[i as int].id() == *id,
                None => !self@.holds(*id),
            },
    {
        let mut i: usize = 0;
        while i < self.entries.len()
            invariant
                self.wf(),
                i <= self.entries.len(),
                forall|k: int| 0 <= k < i ==> (#[trigger] self.entries@[k]).id() != *id,
            decreases self.entries.len() - i,
        {
            if self.entries[i].header.id() == *id {
                proof {
                    self@.lemma_entry_found(i as int);
                }
                return Some(i);
            }
            i += 1;
        }
        None
    }

    /// Returns whether the target is known to have the header of this id.
    fn is_synced(&self, id: &HeaderId) -> (r: bool)
        ensures
            r == self@.synced.contains(*id),
    {
        contains_id(&self.synced, id)
    }

    /// Returns the status of the header of this id.
    pub fn status(&self, id: &HeaderId) -> (r: HeaderStatus)
        requires
            self.wf(),
        ensures
            r == self@.status(*id),
    {
        match self.find(id) {
            Some(i) => self.entries[i].status,
            None => if self.is_synced(id) {
                HeaderStatus::Synced
            } else {
                HeaderStatus::Unknown
            },
        }
    }

    /// Gives the entry at `i` the status `status`.
    fn set_status(&mut self, i: usize, status: HeaderStatus)
        requires
            i < old(self).entries.len(),
        ensures
            final(self)@ == (QueueView {
                entries: old(self)@.entries.update(
                    i as int,
                    Entry { header: old(self)@.entries[i as int].header, status },
                ),
                ..old(self)@
            }),
    {
        self.entries[i].status = status;
        assert(self@.entries =~= old(self)@.entries.update(
            i as int,
            Entry { header: old(self)@.entries[i as int].header, status },
        ));
        assert(self@.synced =~= old(self)@.synced);
    }

    /// Takes in a header that has arrived from the source.
    pub fn header_response(&mut self, header: P::Header)
        requires
            old(self).wf(),
        ensures
            final(self).wf(),
            final(self)@ == old(self)@.header_response(header),
    {
        let queued = QueuedHeader::<P>::new(header);
        let id = queued.id();
        if self.status(&id) != HeaderStatus::Unknown {
            return ;
        }
        if id.0 <= self.prune_border {
            return ;
        }
        let parent_status = match queued.parent_id() {
            Some(parent) => self.status(&parent),
            None => HeaderStatus::Unknown,
        };
        let status = match parent_status {
            HeaderStatus::Unknown | HeaderStatus::MaybeOrphan => HeaderStatus::MaybeOrphan,
            HeaderStatus::Orphan => HeaderStatus::Orphan,
            _ => HeaderStatus::MaybeExtra,
        };
        let mut k: usize = self.entries.len();
        while k > 0 && self.entries[k - 1].header.id().0 > id.0
            invariant
                k <= self.entries.len(),
                forall|i: int|
                    k <= i < self.entries.len() ==> (#[trigger] self.entries@[i]).number() > id.0,
            decreases k,
        {
            k -= 1;
        }
        proof {
            let before = self@;
            assert(before.parts_at(id.0 + 1, k as int)) by {
                assert forall|i: int| 0 <= i < k implies (#[trigger] before.entries[i]).number()
                    < id.0 + 1 by {
                    assert(before.entries[i].number() <= before.entries[k - 1].number());
                }
            }
            before.lemma_parts_unique(id.0 + 1, k as int);
            assert(queued == QueuedHeader::<P> { header, extra: None });
            assert forall|i: int| 0 <= i < before.entries.len() implies (
            #[trigger] before.entries[i]).id() != id by {
                before.lemma_entry_found(i);
            }
        }
        self.entries.insert(k, Entry { header: queued, status });
        assert(self@.synced =~= old(self)@.synced);
    }

    /// Moves the header of this id from the status `from` to the status `to`, if it is there.
    fn move_header(&mut self, id: &HeaderId, from: HeaderStatus, to: HeaderStatus)
        requires
            old(self).wf(),
            is_queued(to),
        ensures
            final(self).wf(),
            final(self)@ == old(self)@.with_status_changed(*id, from, to),
    {
        match self.find(id) {
            Some(i) => {
                if self.entries[i].status == from {
                    self.set_status(i, to);
                }
            },
            None => {},
        }
    }

    /// Takes in the answer to whether the header of this id needs extra data.
    pub fn maybe_extra_response(&mut self, id: &HeaderId, response: bool)
        requires
            old(self).wf(),
        ensures
            final(self).wf(),
            final(self)@ == old(self)@.maybe_extra_response(*id, response),
    {
        let to = if response {
            HeaderStatus::Extra
        } else {
            HeaderStatus::Ready
        };
        self.move_header(id, HeaderStatus::MaybeExtra, to);
    }

    /// Takes in the extra data of the header of this id.
    pub fn extra_response(&mut self, id: &HeaderId, extra: P::Extra)
        requires
            old(self).wf(),
        ensures
            final(self).wf(),
            final(self)@ == old(self)@.extra_response(*id, extra),
    {
        match self.find(id) {
            Some(i) => {
                if self.entries[i].status == HeaderStatus::Extra {
                    let entry = self.entries.remove(i);
                    let header = entry.header.set_extra(extra);
                    self.entries.insert(i, Entry { header, status: HeaderStatus::Ready });
                    assert(self@.entries =~= old(self)@.entries.update(
                        i as int,
                        Entry { header, status: HeaderStatus::Ready },
                    ));
                    assert(self@.synced =~= old(self)@.synced);
                }
            },
            None => {},
        }
    }

    /// Takes in the ids of headers that were submitted to the target.
    pub fn headers_submitted(&mut self, ids: Vec<HeaderId>)
        requires
            old(self).wf(),
        ensures
            final(self).wf(),
            final(self)@ == old(self)@.headers_submitted(ids@),
    {
        let mut i: usize = 0;
        while i < ids.len()
            invariant
                i <= ids.len(),
                self.wf(),
                self@ == old(self)@.headers_submitted(ids@.take(i as int)),
            decreases ids.len() - i,
        {
            assert(ids@.take(i + 1).drop_last() =~= ids@.take(i as int));
            self.move_header(&ids[i], HeaderStatus::Ready, HeaderStatus::Submitted);
            i += 1;
        }
        assert(ids@.take(i as int) =~= ids@);
    }

    /// Remembers that the target knows the header of this id.
    fn mark_synced(&mut self, id: HeaderId)
        ensures
            final(self)@ == (QueueView { synced: old(self)@.synced.insert(id), ..old(self)@ }),
    {
        if !contains_id(&self.synced, &id) {
            push_id(&mut self.synced, id);
        }
        assert(self@.synced =~= old(self)@.synced.insert(id));
    }

    /// Moves every header that follows `root` to the status `to`.
    fn move_descendants(&mut self, root: &HeaderId, orphans_too: bool, to: HeaderStatus)
        requires
            old(self).wf(),
            is_queued(to),
        ensures
            final(self).wf(),
            final(self)@ == old(self)@.with_descendants_moved(*root, orphans_too, to),
    {
        let ghost before = self@;
        let mut moved: Vec<HeaderId> = Vec::new();
        push_id(&mut moved, *root);
        let mut i: usize = 0;
        while i < self.entries.len()
            invariant
                before.wf(),
                is_queued(to),
                i <= self.entries.len(),
                self.entries@.len() == before.entries.len(),
                self@.synced == before.synced,
                self@.prune_border == before.prune_border,
                forall|j: int|
                    0 <= j < i ==> #[trigger] self.entries@[j] == (Entry {
                        header: before.entries[j].header,
                        status: if before.follows(*root, orphans_too, before.entries[j].id()) {
                            to
                        } else {
                            before.entries[j].status
                        },
                    }),
                forall|j: int|
                    i <= j < before.entries.len() ==> #[trigger] self.entries@[j]
                        == before.entries[j],
                moved@.contains(*root),
                forall|x: HeaderId| #[trigger]
                    moved@.contains(x) ==> x == *root || before.follows(*root, orphans_too, x),
                forall|j: int|
                    0 <= j < i && before.follows(
                        *root,
                        orphans_too,
                        (#[trigger] before.entries[j]).id(),
                    ) ==> moved@.contains(before.entries[j].id()),
            decreases self.entries.len() - i,
        {
            let ghost entry = before.entries[i as int];
            assert(self.entries@[i as int] == entry);
            let status = self.entries[i].status;
            let mut follows = false;
            if status == HeaderStatus::MaybeOrphan || (orphans_too && status
                == HeaderStatus::Orphan) {
                match self.entries[i].header.parent_id() {
                    Some(parent) => {
                        follows = contains_id(&moved, &parent);
                        proof {
                            if !follows && before.follows(*root, orphans_too, parent) {
                                let j = before.index_of(parent);
                                assert(before.entries[j].id() == parent);
                                assert(before.entries[j].number() < entry.number());
                                if j >= i {
                                    assert(before.entries[i as int].number()
                                        <= before.entries[j].number());
                                }
                                assert(moved@.contains(before.entries[j].id()));
                            }
                        }
                    },
                    None => {},
                }
            }
            proof {
                before.lemma_entry_found(i as int);
                assert(follows == before.follows(*root, orphans_too, entry.id()));
            }
            if follows {
                let id = self.entries[i].header.id();
                self.set_status(i, to);
                push_id(&mut moved, id);
            }
            i += 1;
        }
        assert(self@.entries =~= before.with_descendants_moved(*root, orphans_too, to).entries);
    }

    /// Takes in the answer to whether the target knows the header of this id.
    pub fn maybe_orphan_response(&mut self, id: &HeaderId, response: bool)
        requires
            old(self).wf(),
        ensures
            final(self).wf(),
            final(self)@ == old(self)@.maybe_orphan_response(*id, response),
    {
        if !response {
            self.move_descendants(id, false, HeaderStatus::Orphan);
            return ;
        }
        let unknown = self.status(id) == HeaderStatus::Unknown;
        self.move_descendants(id, true, HeaderStatus::MaybeExtra);
        if unknown {
            self.mark_synced(*id);
        }
    }

    /// Remembers `top` and the queued headers on its chain as known to the target,
    /// and takes those headers out of the queue.
    fn sync_chain(&mut self, top: &HeaderId)
        requires
            old(self).wf(),
        ensures
            final(self).wf(),
            final(self)@ == old(self)@.with_chain_synced(*top),
    {
        let ghost before = self@;
        let mut chain: Vec<HeaderId> = Vec::new();
        let mut current = *top;
        let mut walking = true;
        while walking
            invariant
                before.wf(),
                self.wf(),
                self.entries@ == before.entries,
                self.prune_border == before.prune_border,
                forall|x: HeaderId| #[trigger]
                    self@.synced.contains(x) <==> before.synced.contains(x) || chain@.contains(x),
                forall|x: HeaderId|
                    #![trigger chain@.contains(x)]
                    #![trigger before.on_chain(*top, x)]
                    before.on_chain(*top, x) <==> chain@.contains(x) || (walking
                        && before.on_chain(current, x)),
            decreases
                    (if walking {
                        current.0 + 1
                    } else {
                        0
                    }),
        {
            let ghost chain_before = chain@;
            let ghost current_before = current;
            match self.find(&current) {
                Some(i) => {
                    proof {
                        before.lemma_entry_found(i as int);
                    }
                    push_id(&mut chain, current);
                    self.mark_synced(current);
                    match self.entries[i].header.parent_id() {
                        Some(parent) => {
                            current = parent;
                        },
                        None => {
                            walking = false;
                        },
                    }
                },
                None => {
                    proof {
                        if before.holds(current) {
                            let k = before.index_of(current);
                            assert(self.entries@[k].id() == current);
                        }
                    }
                    walking = false;
                },
            }
            proof {
                assert forall|x: HeaderId|
                    #![trigger chain@.contains(x)]
                    #![trigger before.on_chain(*top, x)]
                    before.on_chain(*top, x) <==> chain@.contains(x) || (walking
                        && before.on_chain(current, x)) by {
                    assert(before.on_chain(*top, x) <==> chain_before.contains(x)
                        || before.on_chain(current_before, x));
                }
            }
        }
        self.mark_synced(*top);
        let ghost synced = self@.synced;
        assert(synced =~= before.with_chain_synced(*top).synced);
        let ghost keep = before.off_chain(*top);
        let ghost mut i: int = 0;
        let mut j: usize = 0;
        while j < self.entries.len()
            invariant
                before.wf(),
                self.wf(),
                keep == before.off_chain(*top),
                0 <= i <= before.entries.len(),
                j == before.entries.take(i).filter(keep).len(),
                self.entries@ == before.entries.take(i).filter(keep) + before.entries.skip(i),
                self@.synced == synced,
                self.prune_border == before.prune_border,
                forall|x: HeaderId| before.on_chain(*top, x) <==> #[trigger] chain@.contains(x),
            decreases before.entries.len() - i,
        {
            broadcast use Seq::lemma_filter_push;

            let ghost entry = before.entries[i];
            assert(self.entries@[j as int] == entry);
            assert(before.entries.take(i + 1) =~= before.entries.take(i).push(entry));
            let id = self.entries[j].header.id();
            if contains_id(&chain, &id) {
                proof {
                    self@.lemma_remove_wf(j as int);
                }
                let _ = self.entries.remove(j);
                assert(self@.synced =~= synced);
            } else {
                j += 1;
            }
            proof {
                i = i + 1;
            }
            assert(self.entries@ =~= before.entries.take(i).filter(keep) + before.entries.skip(i));
        }
        assert(before.entries.take(i) =~= before.entries);
    }

    /// Takes in the best header of the target.
    pub fn target_best_header_response(&mut self, id: &HeaderId)
        requires
            old(self).wf(),
        ensures
            final(self).wf(),
            final(self)@ == old(self)@.target_best_header_response(*id),
    {
        self.sync_chain(id);
        self.move_descendants(id, true, HeaderStatus::MaybeExtra);
    }

    /// Drops everything at or below `prune_border`, unless the border would move back.
    pub fn prune(&mut self, prune_border: u64)
        requires
            old(self).wf(),
        ensures
            final(self).wf(),
            final(self)@ == old(self)@.prune(prune_border),
    {
        if prune_border <= self.prune_border {
            return ;
        }
        let ghost before = self@;
        let mut k: usize = 0;
        while k < self.entries.len() && self.entries[k].header.id().0 <= prune_border
            invariant
                k <= self.entries.len(),
                forall|i: int| 0 <= i < k ==> (#[trigger] self.entries@[i]).number() <= prune_border,
            decreases self.entries.len() - k,
        {
            k += 1;
        }
        proof {
            assert(before.parts_at(prune_border + 1, k as int)) by {
                assert forall|i: int| k <= i < before.entries.len() implies (
                #[trigger] before.entries[i]).number() > prune_border by {
                    assert(before.entries[k as int].number() <= before.entries[i].number());
                }
            }
            before.lemma_parts_unique(prune_border + 1, k as int);
            before.lemma_skip_wf(k as int, prune_border);
        }
        let kept = self.entries.split_off(k);
        self.entries = kept;
        let mut kept_ids: Vec<HeaderId> = Vec::new();
        let mut i: usize = 0;
        while i < self.synced.len()
            invariant
                i <= self.synced.len(),
                forall|x: HeaderId| #[trigger]
                    kept_ids@.contains(x) <==> x.0 > prune_border && exists|m: int|
                        0 <= m < i && self.synced@[m] == x,
            decreases self.synced.len() - i,
        {
            let id = self.synced[i];
            if id.0 > prune_border {
                push_id(&mut kept_ids, id);
            }
            i += 1;
        }
        self.synced = kept_ids;
        self.prune_border = prune_border;
        assert(self@.synced =~= before.synced.filter(|id: HeaderId| id.0 > prune_border));
        assert(self@.entries =~= before.entries.skip(k as int));
    }

    /// Forgets every header and the prune border.
    pub fn clear(&mut self)
        ensures
            final(self).wf(),
            final(self)@ == QueueView::<P>::empty(),
    {
        self.entries.clear();
        self.synced.clear();
        self.prune_border = 0;
        assert(self@.synced =~= Set::empty());
    }

    /// Returns the headers of the given status in queue order, up to the
    /// first that `f` rejects, or `None` if `f` accepts none.
    pub fn headers<F: Fn(&QueuedHeader<P>) -> bool>(&self, status: HeaderStatus, f: F) -> (r:
        Option<Vec<&QueuedHeader<P>>>)
        requires
            forall|i: int|
                0 <= i < self@.in_status(status).len() ==> call_requires(
                    f,
                    (&#[trigger] self@.in_status(status)[i],),
                ),
        ensures
            match r {
                Some(taken) => taken@.len() > 0 && taken_while(
                    self@.in_status(status),
                    f,
                    taken@,
                ),
                None => taken_while(self@.in_status(status), f, Seq::empty()),
            },
    {
        let ghost all = self@.in_status(status);
        let mut taken: Vec<&QueuedHeader<P>> = Vec::new();
        let mut i: usize = 0;
        let mut stopped = false;
        while i < self.entries.len() && !stopped
            invariant
                i <= self.entries.len(),
                all == headers_with_status(self.entries@, status),
                forall|k: int| 0 <= k < all.len() ==> call_requires(f, (&#[trigger] all[k],)),
                !stopped ==> taken@.len() == headers_with_status(
                    self.entries@.take(i as int),
                    status,
                ).len(),
                taken@.len() <= all.len(),
                forall|k: int|
                    0 <= k < taken@.len() ==> *(#[trigger] taken@[k]) == all[k] && call_ensures(
                        f,
                        (taken@[k],),
                        true,
                    ),
                stopped ==> taken@.len() < all.len() && call_ensures(
                    f,
                    (&all[taken@.len() as int],),
                    false,
                ),
            decreases
                    self.entries.len() - i,
                    (if stopped {
                        0int
                    } else {
                        1int
                    }),
        {
            proof {
                lemma_headers_with_status_step(self.entries@, status, i as int);
                lemma_headers_with_status_prefix(self.entries@, status, i as int);
            }
            if self.entries[i].status == status {
                let header = &self.entries[i].header;
                if f(header) {
                    taken.push(header);
                    i += 1;
                } else {
                    stopped = true;
                }
            } else {
                i += 1;
            }
        }
        proof {
            if !stopped {
                assert(self.entries@.take(i as int) =~= self.entries@);
            }
        }
        if taken.len() == 0 {
            None
        } else {
            Some(taken)
        }
    }

    /// Returns the number of headers of the given status.
    pub fn headers_in_status(&self, status: HeaderStatus) -> (r: usize)
        ensures
            r == self@.in_status(status).len(),
    {
        let mut count: usize = 0;
        let mut i: usize = 0;
        while i < self.entries.len()
            invariant
                i <= self.entries.len(),
                count <= i,
                count == headers_with_status(self.entries@.take(i as int), status).len(),
            decreases self.entries.len() - i,
        {
            proof {
                lemma_headers_with_status_step(self.entries@, status, i as int);
            }
            if self.entries[i].status == status {
                count += 1;
            }
            i += 1;
        }
        assert(self.entries@.take(i as int) =~= self.entries@);
        count
    }

    /// Returns the first header of the given status, if there is one.
    pub fn header(&self, status: HeaderStatus) -> (r: Option<&QueuedHeader<P>>)
        ensures
            match r {
                Some(header) => self@.in_status(status).len() > 0 && *header
                    == self@.in_status(status)[0],
                None => self@.in_status(status).len() == 0,
            },
    {
        let mut i: usize = 0;
        while i < self.entries.len()
            invariant
                i <= self.entries.len(),
                headers_with_status(self.entries@.take(i as int), status).len() == 0,
            decreases self.entries.len() - i,
        {
            proof {
                lemma_headers_with_status_step(self.entries@, status, i as int);
            }
            if self.entries[i].status == status {
                proof {
                    lemma_headers_with_status_prefix(self.entries@, status, i as int);
                }
                return Some(&self.entries[i].header);
            }
            i += 1;
        }
        assert(self.entries@.take(i as int) =~= self.entries@);
        None
    }
}

} // verus!
