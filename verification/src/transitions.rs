//! What holds of the queue along every course of events.

use crate::headers::{
    awaits_ancestry, headers_with_status, is_past_ancestry, is_queued, is_resolved,
    status_on_arrival, Entry, QueueView,
};
use crate::sync_types::{HeaderId, HeaderStatus, HeadersSyncPipeline, QueuedHeader, SourceHeader};
use vstd::prelude::*;

verus! {

impl<P: HeadersSyncPipeline> QueueView<P> {
    /// A queue in order can be parted at every number.
    pub proof fn lemma_parts_exist(self, number: int)
        requires
            self.sorted(),
        ensures
            self.parts_at(number, self.count_below(number)),
        decreases self.entries.len(),
    {
        if self.entries.len() == 0 {
            assert(self.parts_at(number, 0));
        } else {
            let shorter = QueueView { entries: self.entries.drop_last(), ..self };
            assert forall|i: int, j: int| 0 <= i <= j < shorter.entries.len() implies (
            #[trigger] shorter.entries[i]).number() <= (#[trigger] shorter.entries[j]).number() by {
                assert(self.entries[i].number() <= self.entries[j].number());
            }
            shorter.lemma_parts_exist(number);
            let c = shorter.count_below(number);
            let last = self.entries.len() - 1;
            if self.entries[last].number() < number {
                assert forall|i: int| 0 <= i < self.entries.len() implies (
                #[trigger] self.entries[i]).number() < number by {
                    assert(self.entries[i].number() <= self.entries[last].number());
                }
                assert(self.parts_at(number, self.entries.len() as int));
            } else {
                assert forall|i: int| 0 <= i < c implies (#[trigger] self.entries[i]).number()
                    < number by {
                    assert(shorter.entries[i].number() < number);
                }
                assert forall|i: int| c <= i < self.entries.len() implies (
                #[trigger] self.entries[i]).number() >= number by {
                    if i < last {
                        assert(shorter.entries[i].number() >= number);
                    }
                }
                assert(self.parts_at(number, c));
            }
        }
    }

    /// The status of an id that the queue does not hold is read from the ids known to the target.
    pub proof fn lemma_status_not_held(self, id: HeaderId)
        requires
            forall|i: int| 0 <= i < self.entries.len() ==> (#[trigger] self.entries[i]).id() != id,
        ensures
            !self.holds(id),
            self.status(id) == if self.synced.contains(id) {
                HeaderStatus::Synced
            } else {
                HeaderStatus::Unknown
            },
    {
    }

    /// A queue holds the ids of its entries, and a status that is not
    /// `Unknown` or `Synced` is that of an entry.
    pub proof fn lemma_status_queued(self, id: HeaderId)
        requires
            self.wf(),
        ensures
            self.holds(id) <==> is_queued(self.status(id)),
            self.holds(id) ==> 0 <= self.index_of(id) < self.entries.len()
                && self.entries[self.index_of(id)].id() == id && id.0 > self.prune_border,
    {
    }

    /// Whether a header of this id is taken in when it arrives.
    pub open spec fn accepts(self, id: HeaderId) -> bool {
        self.status(id) == HeaderStatus::Unknown && id.0 > self.prune_border
    }

    /// What the arrival of a header changes: nothing, if it is not taken in;
    /// else the queue holds it at the place that its number gives it, and
    /// every other id has the status it had.
    pub proof fn lemma_header_response(self, header: P::Header)
        requires
            self.wf(),
        ensures
            self.header_response(header).wf(),
            self.header_response(header).synced == self.synced,
            self.header_response(header).prune_border == self.prune_border,
            !self.accepts(header.spec_id()) ==> self.header_response(header) == self,
            self.accepts(header.spec_id()) ==> {
                let k = self.count_below(header.spec_id().0 + 1);
                let queued = QueuedHeader::<P> { header, extra: None };
                let after = self.header_response(header);
                &&& 0 <= k <= self.entries.len()
                &&& after.entries == self.entries.insert(
                    k,
                    Entry { header: queued, status: status_on_arrival(self.parent_status(queued)) },
                )
                &&& after.status(header.spec_id()) == status_on_arrival(self.parent_status(queued))
                &&& forall|id: HeaderId|
                    id != header.spec_id() ==> #[trigger] after.status(id) == self.status(id)
            },
    {
        let id = header.spec_id();
        let queued = QueuedHeader::<P> { header, extra: None };
        let after = self.header_response(header);
        if self.accepts(id) {
            self.lemma_parts_exist(id.0 + 1);
            let k = self.count_below(id.0 + 1);
            let entry = Entry { header: queued, status: status_on_arrival(self.parent_status(queued)) };
            assert(after.entries == self.entries.insert(k, entry));
            assert forall|i: int| 0 <= i < after.entries.len() implies #[trigger] after.entries[i]
                == (if i < k {
                self.entries[i]
            } else if i == k {
                entry
            } else {
                self.entries[i - 1]
            }) by {}
            assert forall|i: int| 0 <= i < self.entries.len() implies (
            #[trigger] self.entries[i]).id() != id by {
                self.lemma_entry_found(i);
            }
            assert(after.sorted()) by {
                assert forall|i: int, j: int| 0 <= i <= j < after.entries.len() implies (
                #[trigger] after.entries[i]).number() <= (#[trigger] after.entries[j]).number() by {
                    let i0 = if i < k { i } else { i - 1 };
                    let j0 = if j < k { j } else { j - 1 };
                    if i != k && j != k {
                        assert(self.entries[i0].number() <= self.entries[j0].number());
                    } else if i == k && j != k {
                        assert(self.entries[j0].number() >= id.0 + 1);
                    } else if j == k && i != k {
                        assert(self.entries[i0].number() < id.0 + 1);
                    }
                }
            }
            assert(after.distinct()) by {
                assert forall|i: int, j: int|
                    0 <= i < after.entries.len() && 0 <= j < after.entries.len() && i != j implies (
                #[trigger] after.entries[i]).id() != (#[trigger] after.entries[j]).id() by {
                    let i0 = if i < k { i } else { i - 1 };
                    let j0 = if j < k { j } else { j - 1 };
                    if i != k && j != k {
                        assert(self.entries[i0].id() != self.entries[j0].id());
                    } else if i == k {
                        assert(self.entries[j0].id() != id);
                    } else {
                        assert(self.entries[i0].id() != id);
                    }
                }
            }
            assert(after.wf());
            after.lemma_entry_found(k);
            assert forall|x: HeaderId| x != id implies #[trigger] after.status(x) == self.status(
                x,
            ) by {
                if self.holds(x) {
                    let i = self.index_of(x);
                    let i1 = if i < k { i } else { i + 1 };
                    assert(after.entries[i1] == self.entries[i]);
                    after.lemma_entry_found(i1);
                } else {
                    assert forall|i: int| 0 <= i < after.entries.len() implies (
                    #[trigger] after.entries[i]).id() != x by {
                        if i != k {
                            let i0 = if i < k { i } else { i - 1 };
                            assert(self.entries[i0].id() != x);
                        }
                    }
                    after.lemma_status_not_held(x);
                }
            }
        }
    }

    /// The queue after these headers have arrived, one after the other.
    pub open spec fn header_responses(self, headers: Seq<P::Header>) -> Self
        decreases headers.len(),
    {
        if headers.len() == 0 {
            self
        } else {
            self.header_responses(headers.drop_last()).header_response(headers.last())
        }
    }

    /// Arrivals keep the queue well-formed, and they keep refusing an id that
    /// was refused before.
    pub proof fn lemma_header_responses(self, headers: Seq<P::Header>, id: HeaderId)
        requires
            self.wf(),
        ensures
            self.header_responses(headers).wf(),
            !self.accepts(id) ==> !self.header_responses(headers).accepts(id),
        decreases headers.len(),
    {
        if headers.len() > 0 {
            self.lemma_header_responses(headers.drop_last(), id);
            self.header_responses(headers.drop_last()).lemma_header_response(headers.last());
        }
    }

    /// A header that arrives again changes nothing, whatever headers arrived since.
    ///
    /// After `first` has arrived and then the headers `between`, the arrival
    /// of a header of the id of `first` leaves the queue as it is: the number
    /// of its headers, and the status of each.
    pub proof fn lemma_header_response_again(
        self,
        first: P::Header,
        between: Seq<P::Header>,
        again: P::Header,
    )
        requires
            self.wf(),
            again.spec_id() == first.spec_id(),
        ensures
            ({
                let before = self.header_response(first).header_responses(between);
                before.header_response(again) == before
            }),
    {
        self.lemma_header_response(first);
        self.header_response(first).lemma_header_responses(between, first.spec_id());
    }
}

/// Each of the headers of a status is the header of an entry of that status.
pub proof fn lemma_headers_with_status_from<P: HeadersSyncPipeline>(
    entries: Seq<Entry<P>>,
    status: HeaderStatus,
    k: int,
)
    requires
        0 <= k < headers_with_status(entries, status).len(),
    ensures
        exists|j: int|
            0 <= j < entries.len() && (#[trigger] entries[j]).status == status
                && entries[j].header == headers_with_status(entries, status)[k],
    decreases entries.len(),
{
    let shorter = entries.drop_last();
    let last = entries.len() - 1;
    if entries[last].status == status && k == headers_with_status(shorter, status).len() {
        assert(entries[last].header == headers_with_status(entries, status)[k]);
    } else {
        lemma_headers_with_status_from(shorter, status, k);
        let j = choose|j: int|
            0 <= j < shorter.len() && (#[trigger] shorter[j]).status == status
                && shorter[j].header == headers_with_status(shorter, status)[k];
        assert(entries[j] == shorter[j]);
    }
}

/// The headers of a status come in the order of their numbers where the entries do.
pub proof fn lemma_headers_with_status_ascending<P: HeadersSyncPipeline>(
    entries: Seq<Entry<P>>,
    status: HeaderStatus,
)
    requires
        forall|i: int, j: int|
            0 <= i <= j < entries.len() ==> (#[trigger] entries[i]).number() <= (
            #[trigger] entries[j]).number(),
    ensures
        forall|a: int, b: int|
            0 <= a <= b < headers_with_status(entries, status).len() ==> (
            #[trigger] headers_with_status(entries, status)[a]).spec_id().0 <= (
            #[trigger] headers_with_status(entries, status)[b]).spec_id().0,
    decreases entries.len(),
{
    if entries.len() > 0 {
        let shorter = entries.drop_last();
        let last = entries.len() - 1;
        let headers = headers_with_status(entries, status);
        let before = headers_with_status(shorter, status);
        assert forall|i: int, j: int| 0 <= i <= j < shorter.len() implies (
        #[trigger] shorter[i]).number() <= (#[trigger] shorter[j]).number() by {
            assert(entries[i].number() <= entries[j].number());
        }
        lemma_headers_with_status_ascending(shorter, status);
        assert forall|a: int, b: int| 0 <= a <= b < headers.len() implies (
        #[trigger] headers[a]).spec_id().0 <= (#[trigger] headers[b]).spec_id().0 by {
            if b < before.len() {
                assert(before[a].spec_id().0 <= before[b].spec_id().0);
            } else if a < before.len() {
                lemma_headers_with_status_from(shorter, status, a);
                let j = choose|j: int|
                    0 <= j < shorter.len() && (#[trigger] shorter[j]).status == status
                        && shorter[j].header == before[a];
                assert(entries[j].number() <= entries[last].number());
            }
        }
    }
}

/// A sequence with one more element holds what it held before and that element.
pub proof fn lemma_push_contains<A>(s: Seq<A>, a: A, x: A)
    ensures
        s.push(a).contains(x) <==> s.contains(x) || x == a,
{
    let t = s.push(a);
    if s.contains(x) {
        let k = choose|k: int| 0 <= k < s.len() && s[k] == x;
        assert(t[k] == x);
    }
    if x == a {
        assert(t[s.len() as int] == x);
    }
    if t.contains(x) {
        let k = choose|k: int| 0 <= k < t.len() && t[k] == x;
        if k < s.len() {
            assert(s[k] == x);
        }
    }
}

impl<P: HeadersSyncPipeline> QueueView<P> {
    /// Whether `other` holds under the same border a header of the same id
    /// and parent at each place of this queue, under a status of a queued header.
    pub open spec fn same_ids(self, other: Self) -> bool {
        &&& other.entries.len() == self.entries.len()
        &&& other.prune_border == self.prune_border
        &&& forall|i: int|
            0 <= i < self.entries.len() ==> {
                &&& (#[trigger] other.entries[i]).id() == self.entries[i].id()
                &&& other.entries[i].header.spec_parent_id()
                    == self.entries[i].header.spec_parent_id()
                &&& is_queued(other.entries[i].status)
            }
    }

    /// A queue of the same ids is well-formed if this one is.
    pub proof fn lemma_same_ids_wf(self, other: Self)
        requires
            self.wf(),
            self.same_ids(other),
        ensures
            other.wf(),
    {
        assert forall|i: int, j: int| 0 <= i <= j < other.entries.len() implies (
        #[trigger] other.entries[i]).number() <= (#[trigger] other.entries[j]).number() by {
            assert(self.entries[i].number() <= self.entries[j].number());
        }
        assert forall|i: int, j: int|
            0 <= i < other.entries.len() && 0 <= j < other.entries.len() && i != j implies (
        #[trigger] other.entries[i]).id() != (#[trigger] other.entries[j]).id() by {
            assert(self.entries[i].id() != self.entries[j].id());
        }
        assert forall|i: int| 0 <= i < other.entries.len() implies (
        #[trigger] other.entries[i]).number() > other.prune_border by {
            assert(self.entries[i].number() > self.prune_border);
        }
    }

    /// A queue of the same ids holds each id at the place where this one holds it.
    pub proof fn lemma_same_ids_status(self, other: Self, id: HeaderId)
        requires
            self.wf(),
            self.same_ids(other),
        ensures
            other.holds(id) == self.holds(id),
            self.holds(id) ==> other.index_of(id) == self.index_of(id) && other.status(id)
                == other.entries[self.index_of(id)].status,
            !self.holds(id) ==> other.status(id) == if other.synced.contains(id) {
                HeaderStatus::Synced
            } else {
                HeaderStatus::Unknown
            },
    {
        self.lemma_same_ids_wf(other);
        if self.holds(id) {
            let i = self.index_of(id);
            assert(other.entries[i].id() == id);
            other.lemma_entry_found(i);
        } else {
            assert forall|i: int| 0 <= i < other.entries.len() implies (
            #[trigger] other.entries[i]).id() != id by {
                assert(self.entries[i].id() != id);
            }
            other.lemma_status_not_held(id);
        }
    }

    /// A queue from which entries were taken is well-formed still, and it
    /// holds the entries that were kept and no others.
    pub proof fn lemma_filter(self, keep: spec_fn(Entry<P>) -> bool)
        requires
            self.wf(),
        ensures
            (QueueView { entries: self.entries.filter(keep), ..self }).wf(),
            forall|entry: Entry<P>| #[trigger]
                self.entries.filter(keep).contains(entry) <==> self.entries.contains(entry)
                    && keep(entry),
        decreases self.entries.len(),
    {
        let kept = self.entries.filter(keep);
        if self.entries.len() == 0 {
            reveal(Seq::filter);
            assert(kept =~= Seq::<Entry<P>>::empty());
            assert forall|entry: Entry<P>| #[trigger]
                kept.contains(entry) <==> self.entries.contains(entry) && keep(entry) by {}
        } else {
            let last = self.entries.last();
            let shorter = QueueView { entries: self.entries.drop_last(), ..self };
            assert forall|i: int| 0 <= i < shorter.entries.len() implies #[trigger] shorter.entries[i]
                == self.entries[i] by {}
            assert(shorter.wf()) by {
                assert forall|i: int, j: int| 0 <= i <= j < shorter.entries.len() implies (
                #[trigger] shorter.entries[i]).number() <= (#[trigger] shorter.entries[j]).number() by {
                    assert(self.entries[i].number() <= self.entries[j].number());
                }
                assert forall|i: int, j: int|
                    0 <= i < shorter.entries.len() && 0 <= j < shorter.entries.len() && i
                        != j implies (#[trigger] shorter.entries[i]).id() != (
                #[trigger] shorter.entries[j]).id() by {
                    assert(self.entries[i].id() != self.entries[j].id());
                }
            }
            shorter.lemma_filter(keep);
            let kept_shorter = shorter.entries.filter(keep);
            assert(self.entries =~= shorter.entries.push(last));
            shorter.entries.lemma_filter_push(last, keep);
            assert forall|entry: Entry<P>| #[trigger]
                kept.contains(entry) <==> self.entries.contains(entry) && keep(entry) by {
                lemma_push_contains(shorter.entries, last, entry);
                lemma_push_contains(kept_shorter, last, entry);
            }
            if keep(last) {
                let after = QueueView { entries: kept, ..self };
                let n = kept_shorter.len() as int;
                assert forall|i: int| 0 <= i < n implies {
                    &&& (#[trigger] kept[i]).number() <= last.number()
                    &&& kept[i].id() != last.id()
                } by {
                    assert(kept[i] == kept_shorter[i]);
                    assert(kept_shorter.contains(kept_shorter[i]));
                    assert(shorter.entries.contains(kept[i]));
                    let j = choose|j: int|
                        0 <= j < shorter.entries.len() && shorter.entries[j] == kept[i];
                    assert(self.entries[j].number() <= self.entries[self.entries.len() - 1].number());
                    assert(self.entries[j].id() != self.entries[self.entries.len() - 1].id());
                }
                let before = QueueView { entries: kept_shorter, ..self };
                assert forall|i: int, j: int| 0 <= i <= j < kept.len() implies (
                #[trigger] after.entries[i]).number() <= (#[trigger] after.entries[j]).number() by {
                    if j < n {
                        assert(before.entries[i].number() <= before.entries[j].number());
                    }
                }
                assert forall|i: int, j: int|
                    0 <= i < kept.len() && 0 <= j < kept.len() && i != j implies (
                #[trigger] after.entries[i]).id() != (#[trigger] after.entries[j]).id() by {
                    if i < n && j < n {
                        assert(before.entries[i].id() != before.entries[j].id());
                    }
                }
                assert forall|i: int| 0 <= i < kept.len() implies is_queued(
                    (#[trigger] after.entries[i]).status,
                ) && after.entries[i].number() > after.prune_border by {
                    if i < n {
                        assert(is_queued(before.entries[i].status));
                    }
                }
            }
        }
    }

    /// What the target's knowing `top` changes: `top` and the headers on its
    /// chain are known to the target and not queued; every other id has the
    /// status it had, and every other header stays where it stood.
    pub proof fn lemma_with_chain_synced(self, top: HeaderId)
        requires
            self.wf(),
        ensures
            self.with_chain_synced(top).wf(),
            self.with_chain_synced(top).prune_border == self.prune_border,
            forall|entry: Entry<P>| #[trigger]
                self.with_chain_synced(top).entries.contains(entry) <==> self.entries.contains(
                    entry,
                ) && !self.on_chain(top, entry.id()),
            forall|id: HeaderId| #[trigger]
                self.with_chain_synced(top).status(id) == if id == top || self.on_chain(top, id) {
                    HeaderStatus::Synced
                } else {
                    self.status(id)
                },
    {
        let after = self.with_chain_synced(top);
        self.lemma_filter(self.off_chain(top));
        assert forall|id: HeaderId| #[trigger]
            after.status(id) == if id == top || self.on_chain(top, id) {
                HeaderStatus::Synced
            } else {
                self.status(id)
            } by {
            if id == top || self.on_chain(top, id) {
                if after.holds(id) {
                    let i = after.index_of(id);
                    assert(after.entries.contains(after.entries[i]));
                    assert(self.entries.contains(after.entries[i]));
                    let j = choose|j: int|
                        0 <= j < self.entries.len() && self.entries[j] == after.entries[i];
                    self.lemma_entry_found(j);
                    assert(self.on_chain(top, top));
                }
            } else if self.holds(id) {
                let j = self.index_of(id);
                assert(self.entries.contains(self.entries[j]));
                assert(after.entries.contains(self.entries[j]));
                let i = choose|i: int|
                    0 <= i < after.entries.len() && after.entries[i] == self.entries[j];
                after.lemma_entry_found(i);
            } else {
                assert forall|i: int| 0 <= i < after.entries.len() implies (
                #[trigger] after.entries[i]).id() != id by {
                    assert(after.entries.contains(after.entries[i]));
                    assert(self.entries.contains(after.entries[i]));
                    let j = choose|j: int|
                        0 <= j < self.entries.len() && self.entries[j] == after.entries[i];
                    assert(self.entries[j].id() != id);
                }
                after.lemma_status_not_held(id);
            }
        }
    }

    /// What pruning changes: where the border moves on, the queue holds the
    /// headers above it and no others, and knows nothing of the ids at or below it.
    pub proof fn lemma_prune(self, border: u64)
        requires
            self.wf(),
        ensures
            self.prune(border).wf(),
            self.prune(border).prune_border == if border > self.prune_border {
                border
            } else {
                self.prune_border
            },
            forall|entry: Entry<P>| #[trigger]
                self.prune(border).entries.contains(entry) <==> self.entries.contains(entry)
                    && entry.number() > border,
            forall|id: HeaderId| #[trigger]
                self.prune(border).status(id) == if border > self.prune_border && id.0 <= border {
                    HeaderStatus::Unknown
                } else {
                    self.status(id)
                },
    {
        let after = self.prune(border);
        if border > self.prune_border {
            self.lemma_parts_exist(border + 1);
            let k = self.count_below(border + 1);
            self.lemma_skip_wf(k, border);
            assert forall|i: int| 0 <= i < after.entries.len() implies #[trigger] after.entries[i]
                == self.entries[i + k] by {}
            assert forall|entry: Entry<P>| #[trigger]
                after.entries.contains(entry) <==> self.entries.contains(entry) && entry.number()
                    > border by {
                if after.entries.contains(entry) {
                    let i = choose|i: int| 0 <= i < after.entries.len() && after.entries[i] == entry;
                    assert(self.entries[i + k] == entry);
                }
                if self.entries.contains(entry) && entry.number() > border {
                    let j = choose|j: int| 0 <= j < self.entries.len() && self.entries[j] == entry;
                    assert(j >= k);
                    assert(after.entries[j - k] == entry);
                }
            }
            assert forall|id: HeaderId| #[trigger]
                after.status(id) == if id.0 <= border {
                    HeaderStatus::Unknown
                } else {
                    self.status(id)
                } by {
                if self.holds(id) && id.0 > border {
                    let j = self.index_of(id);
                    assert(j >= k);
                    assert(after.entries[j - k] == self.entries[j]);
                    after.lemma_entry_found(j - k);
                } else {
                    assert forall|i: int| 0 <= i < after.entries.len() implies (
                    #[trigger] after.entries[i]).id() != id by {
                        assert(self.entries[i + k].id() == after.entries[i].id());
                    }
                    after.lemma_status_not_held(id);
                }
            }
        } else {
            assert forall|entry: Entry<P>| #[trigger]
                after.entries.contains(entry) <==> self.entries.contains(entry) && entry.number()
                    > border by {
                if self.entries.contains(entry) {
                    let j = choose|j: int| 0 <= j < self.entries.len() && self.entries[j] == entry;
                    assert(self.entries[j].number() > self.prune_border);
                }
            }
        }
    }
}

/// An event that changes the queue.
pub enum QueueEvent<P: HeadersSyncPipeline> {
    /// A header has arrived from the source.
    HeaderResponse(P::Header),
    /// The target has said whether it knows the header of this id.
    MaybeOrphanResponse(HeaderId, bool),
    /// It has become known whether the header of this id needs extra data.
    MaybeExtraResponse(HeaderId, bool),
    /// The extra data of the header of this id has arrived.
    ExtraResponse(HeaderId, P::Extra),
    /// The headers of these ids were submitted to the target.
    HeadersSubmitted(Seq<HeaderId>),
    /// The target has reported the header of this id as its best.
    TargetBestHeaderResponse(HeaderId),
    /// Everything at or below this number is dropped.
    Prune(u64),
    /// Everything is forgotten.
    Clear,
}

impl<P: HeadersSyncPipeline> QueueView<P> {
    /// The queue after the event.
    pub open spec fn after(self, event: QueueEvent<P>) -> Self {
        match event {
            QueueEvent::HeaderResponse(header) => self.header_response(header),
            QueueEvent::MaybeOrphanResponse(id, known) => self.maybe_orphan_response(id, known),
            QueueEvent::MaybeExtraResponse(id, needs_extra) => self.maybe_extra_response(
                id,
                needs_extra,
            ),
            QueueEvent::ExtraResponse(id, extra) => self.extra_response(id, extra),
            QueueEvent::HeadersSubmitted(ids) => self.headers_submitted(ids),
            QueueEvent::TargetBestHeaderResponse(id) => self.target_best_header_response(id),
            QueueEvent::Prune(border) => self.prune(border),
            QueueEvent::Clear => Self::empty(),
        }
    }

    /// The queue after the events, one after the other.
    pub open spec fn after_all(self, events: Seq<QueueEvent<P>>) -> Self
        decreases events.len(),
    {
        if events.len() == 0 {
            self
        } else {
            self.after_all(events.drop_last()).after(events.last())
        }
    }

    /// Whether the parent of the header can be built upon: its ancestry has
    /// been found good, or the target knows it, or it lies at or below the
    /// prune border.
    pub open spec fn parent_resolved(self, header: QueuedHeader<P>) -> bool {
        match header.spec_parent_id() {
            Some(parent) => is_resolved(self.status(parent)) || parent.0 <= self.prune_border,
            None => false,
        }
    }

    /// Whether every queued header that is past the question of its ancestry
    /// has a parent that can be built upon.
    pub open spec fn parents_resolved(self) -> bool {
        forall|i: int|
            0 <= i < self.entries.len() && is_past_ancestry((#[trigger] self.entries[i]).status)
                ==> self.parent_resolved(self.entries[i].header)
    }

    /// Whether the event says that the target knows a header which the queue
    /// holds waiting for its own ancestry.
    pub open spec fn vouches_for_waiting(self, event: QueueEvent<P>) -> bool {
        match event {
            QueueEvent::MaybeOrphanResponse(id, known) => known && awaits_ancestry(
                self.status(id),
                true,
            ),
            _ => false,
        }
    }

    /// Whether none of the events, in its turn, vouches for a waiting header.
    pub open spec fn never_vouches_for_waiting(self, events: Seq<QueueEvent<P>>) -> bool
        decreases events.len(),
    {
        events.len() == 0 || (self.never_vouches_for_waiting(events.drop_last())
            && !self.after_all(events.drop_last()).vouches_for_waiting(events.last()))
    }

    /// The queue that holds nothing is well-formed, and its parents are resolved.
    pub proof fn lemma_empty()
        ensures
            Self::empty().wf(),
            Self::empty().parents_resolved(),
    {
    }

    /// A change of the status of one header keeps the queue well-formed and
    /// touches the status of no other id.
    pub proof fn lemma_with_status_changed(
        self,
        id: HeaderId,
        from: HeaderStatus,
        to: HeaderStatus,
    )
        requires
            self.wf(),
            is_queued(to),
        ensures
            self.same_ids(self.with_status_changed(id, from, to)),
            self.with_status_changed(id, from, to).wf(),
            self.with_status_changed(id, from, to).synced == self.synced,
            forall|i: int|
                0 <= i < self.entries.len() ==> (#[trigger] self.with_status_changed(
                    id,
                    from,
                    to,
                ).entries[i]).status == if self.entries[i].id() == id && self.entries[i].status
                    == from {
                    to
                } else {
                    self.entries[i].status
                },
    {
        let after = self.with_status_changed(id, from, to);
        if self.status(id) == from && self.holds(id) {
            let k = self.index_of(id);
            self.lemma_entry_found(k);
            assert forall|i: int| 0 <= i < self.entries.len() implies (
            #[trigger] after.entries[i]).status == if self.entries[i].id() == id
                && self.entries[i].status == from {
                to
            } else {
                self.entries[i].status
            } by {
                if i != k {
                    assert(self.entries[i].id() != self.entries[k].id());
                }
            }
        } else {
            assert forall|i: int| 0 <= i < self.entries.len() implies !((
            #[trigger] self.entries[i]).id() == id && self.entries[i].status == from) by {
                self.lemma_entry_found(i);
            }
        }
        self.lemma_same_ids_wf(after);
    }

    /// Among queues of the same ids, one whose headers have only moved on,
    /// each new arrival past the question of ancestry with a parent that can
    /// be built upon, has the parents resolved if this one has.
    pub proof fn lemma_same_ids_parents(self, other: Self)
        requires
            self.wf(),
            self.same_ids(other),
            self.parents_resolved(),
            forall|id: HeaderId| self.synced.contains(id) ==> other.synced.contains(id),
            forall|i: int|
                0 <= i < self.entries.len() && is_resolved(self.entries[i].status) ==> is_resolved(
                    (#[trigger] other.entries[i]).status,
                ),
            forall|i: int|
                0 <= i < self.entries.len() && is_past_ancestry(
                    (#[trigger] other.entries[i]).status,
                ) && !is_past_ancestry(self.entries[i].status) ==> other.parent_resolved(
                    other.entries[i].header,
                ),
        ensures
            other.parents_resolved(),
    {
        assert forall|i: int|
            0 <= i < other.entries.len() && is_past_ancestry(
                (#[trigger] other.entries[i]).status,
            ) implies other.parent_resolved(other.entries[i].header) by {
            if is_past_ancestry(self.entries[i].status) {
                assert(self.parent_resolved(self.entries[i].header));
                let parent = self.entries[i].header.spec_parent_id().unwrap();
                self.lemma_same_ids_status(other, parent);
                if parent.0 > self.prune_border {
                    if self.holds(parent) {
                        let j = self.index_of(parent);
                        assert(is_resolved(other.entries[j].status));
                    }
                }
            }
        }
    }

    /// A move of the headers that follow `root` keeps the queue well-formed,
    /// and it keeps the parents resolved where `root` itself can be built upon
    /// or the headers move to `Orphan`.
    pub proof fn lemma_with_descendants_moved(
        self,
        root: HeaderId,
        orphans_too: bool,
        to: HeaderStatus,
        synced: Set<HeaderId>,
    )
        requires
            self.wf(),
            to == HeaderStatus::MaybeExtra || to == HeaderStatus::Orphan,
            forall|id: HeaderId| self.synced.contains(id) ==> synced.contains(id),
        ensures
            ({
                let after = QueueView {
                    synced,
                    ..self.with_descendants_moved(root, orphans_too, to)
                };
                &&& self.same_ids(after)
                &&& after.wf()
                &&& self.parents_resolved() && (to == HeaderStatus::Orphan || is_resolved(
                    after.status(root),
                )) ==> after.parents_resolved()
            }),
    {
        let after = QueueView { synced, ..self.with_descendants_moved(root, orphans_too, to) };
        self.lemma_same_ids_wf(after);
        if self.parents_resolved() && (to == HeaderStatus::Orphan || is_resolved(
            after.status(root),
        )) {
            assert forall|i: int|
                0 <= i < self.entries.len() && is_past_ancestry(
                    (#[trigger] after.entries[i]).status,
                ) && !is_past_ancestry(self.entries[i].status) implies after.parent_resolved(
                after.entries[i].header,
            ) by {
                let id = self.entries[i].id();
                self.lemma_entry_found(i);
                assert(self.follows(root, orphans_too, id));
                let parent = self.entries[i].header.spec_parent_id().unwrap();
                if parent != root {
                    assert(self.follows(root, orphans_too, parent));
                    let j = self.index_of(parent);
                    self.lemma_entry_found(j);
                    self.lemma_same_ids_status(after, parent);
                }
            }
            assert forall|i: int|
                0 <= i < self.entries.len() && is_resolved(self.entries[i].status) implies is_resolved(
                (#[trigger] after.entries[i]).status,
            ) by {
                self.lemma_entry_found(i);
            }
            self.lemma_same_ids_parents(after);
        }
    }

    /// Submissions keep the queue well-formed and the parents resolved.
    pub proof fn lemma_headers_submitted(self, ids: Seq<HeaderId>)
        requires
            self.wf(),
        ensures
            self.headers_submitted(ids).wf(),
            self.headers_submitted(ids).prune_border == self.prune_border,
            self.parents_resolved() ==> self.headers_submitted(ids).parents_resolved(),
        decreases ids.len(),
    {
        if ids.len() > 0 {
            self.lemma_headers_submitted(ids.drop_last());
            let before = self.headers_submitted(ids.drop_last());
            before.lemma_with_status_changed(
                ids.last(),
                HeaderStatus::Ready,
                HeaderStatus::Submitted,
            );
            if before.parents_resolved() {
                before.lemma_same_ids_parents(
                    before.with_status_changed(
                        ids.last(),
                        HeaderStatus::Ready,
                        HeaderStatus::Submitted,
                    ),
                );
            }
        }
    }

    /// Every event keeps the queue well-formed, and none but `Clear` moves
    /// the prune border back.
    pub proof fn lemma_after_wf(self, event: QueueEvent<P>)
        requires
            self.wf(),
        ensures
            self.after(event).wf(),
            event !is Clear ==> self.after(event).prune_border >= self.prune_border,
    {
        match event {
            QueueEvent::HeaderResponse(header) => {
                self.lemma_header_response(header);
            },
            QueueEvent::MaybeOrphanResponse(id, known) => {
                if known {
                    self.lemma_with_descendants_moved(
                        id,
                        true,
                        HeaderStatus::MaybeExtra,
                        self.after(event).synced,
                    );
                } else {
                    self.lemma_with_descendants_moved(
                        id,
                        false,
                        HeaderStatus::Orphan,
                        self.synced,
                    );
                }
            },
            QueueEvent::MaybeExtraResponse(id, needs_extra) => {
                self.lemma_with_status_changed(
                    id,
                    HeaderStatus::MaybeExtra,
                    if needs_extra {
                        HeaderStatus::Extra
                    } else {
                        HeaderStatus::Ready
                    },
                );
            },
            QueueEvent::ExtraResponse(id, extra) => {
                self.lemma_same_ids_wf(self.after(event));
            },
            QueueEvent::HeadersSubmitted(ids) => {
                self.lemma_headers_submitted(ids);
            },
            QueueEvent::TargetBestHeaderResponse(id) => {
                self.lemma_with_chain_synced(id);
                let swept = self.with_chain_synced(id);
                swept.lemma_with_descendants_moved(
                    id,
                    true,
                    HeaderStatus::MaybeExtra,
                    swept.synced,
                );
            },
            QueueEvent::Prune(border) => {
                self.lemma_prune(border);
            },
            QueueEvent::Clear => {},
        }
    }

    /// No header gets past the question of its ancestry before its parent.
    ///
    /// If every queued header in `MaybeExtra`, `Extra`, `Ready` or
    /// `Submitted` has a parent that is in one of these statuses, or known to
    /// the target, or at or below the prune border, then so it is after the event,
    /// unless the event vouches for a header that waits for its own ancestry.
    pub proof fn lemma_after_parents_resolved(self, event: QueueEvent<P>)
        requires
            self.wf(),
            self.parents_resolved(),
            !self.vouches_for_waiting(event),
        ensures
            self.after(event).parents_resolved(),
    {
        let after = self.after(event);
        self.lemma_after_wf(event);
        match event {
            QueueEvent::HeaderResponse(header) => {
                self.lemma_header_response(header);
                let id = header.spec_id();
                if self.accepts(id) {
                    let k = self.count_below(id.0 + 1);
                    assert forall|i: int|
                        0 <= i < after.entries.len() && is_past_ancestry(
                            (#[trigger] after.entries[i]).status,
                        ) implies after.parent_resolved(after.entries[i].header) by {
                        let queued = QueuedHeader::<P> { header, extra: None };
                        let entry = Entry {
                            header: queued,
                            status: status_on_arrival(self.parent_status(queued)),
                        };
                        assert(after.entries == self.entries.insert(k, entry));
                        if i != k {
                            let i0 = if i < k { i } else { i - 1 };
                            assert(after.entries[i] == self.entries[i0]);
                            assert(self.parent_resolved(self.entries[i0].header));
                            let parent = self.entries[i0].header.spec_parent_id().unwrap();
                            if parent != id {
                                assert(after.status(parent) == self.status(parent));
                            }
                        } else {
                            assert(after.entries[i] == entry);
                            let parent = queued.spec_parent_id().unwrap();
                            assert(after.status(parent) == self.status(parent));
                        }
                    }
                    } else {
                    assert(after == self);
                    }
            },
            QueueEvent::MaybeOrphanResponse(id, known) => {
                if known {
                    self.lemma_with_descendants_moved(
                        id,
                        true,
                        HeaderStatus::MaybeExtra,
                        after.synced,
                    );
                    self.lemma_same_ids_status(after, id);
                    self.lemma_status_queued(id);
                    if self.holds(id) {
                        assert(!self.follows(id, true, id));
                    }
                } else {
                    self.lemma_with_descendants_moved(
                        id,
                        false,
                        HeaderStatus::Orphan,
                        self.synced,
                    );
                }
            },
            QueueEvent::MaybeExtraResponse(id, needs_extra) => {
                self.lemma_with_status_changed(
                    id,
                    HeaderStatus::MaybeExtra,
                    if needs_extra {
                        HeaderStatus::Extra
                    } else {
                        HeaderStatus::Ready
                    },
                );
                self.lemma_same_ids_parents(after);
            },
            QueueEvent::ExtraResponse(id, extra) => {
                if self.status(id) == HeaderStatus::Extra && self.holds(id) {
                    self.lemma_entry_found(self.index_of(id));
                }
                self.lemma_same_ids_parents(after);
            },
            QueueEvent::HeadersSubmitted(ids) => {
                self.lemma_headers_submitted(ids);
            },
            QueueEvent::TargetBestHeaderResponse(id) => {
                self.lemma_with_chain_synced(id);
                let swept = self.with_chain_synced(id);
                assert forall|i: int|
                    0 <= i < swept.entries.len() && is_past_ancestry(
                        (#[trigger] swept.entries[i]).status,
                    ) implies swept.parent_resolved(swept.entries[i].header) by {
                    assert(swept.entries.contains(swept.entries[i]));
                    assert(self.entries.contains(swept.entries[i]));
                    let j = choose|j: int|
                        0 <= j < self.entries.len() && self.entries[j] == swept.entries[i];
                    assert(self.parent_resolved(self.entries[j].header));
                }
                swept.lemma_with_descendants_moved(
                    id,
                    true,
                    HeaderStatus::MaybeExtra,
                    swept.synced,
                );
                assert(swept.status(id) == HeaderStatus::Synced);
                swept.lemma_status_queued(id);
                swept.lemma_same_ids_status(after, id);
                assert(after == QueueView { synced: swept.synced, ..after });
            },
            QueueEvent::Prune(border) => {
                self.lemma_prune(border);
                assert forall|i: int|
                    0 <= i < after.entries.len() && is_past_ancestry(
                        (#[trigger] after.entries[i]).status,
                    ) implies after.parent_resolved(after.entries[i].header) by {
                    assert(after.entries.contains(after.entries[i]));
                    assert(self.entries.contains(after.entries[i]));
                    let j = choose|j: int|
                        0 <= j < self.entries.len() && self.entries[j] == after.entries[i];
                    assert(self.parent_resolved(self.entries[j].header));
                }
            },
            QueueEvent::Clear => {},
        }
    }

    /// Along every course of events that starts from a well-formed queue with
    /// the parents resolved, and in which no event vouches for a header that
    /// waits for its own ancestry, the queue stays well-formed and the
    /// parents stay resolved.
    pub proof fn lemma_after_all(self, events: Seq<QueueEvent<P>>)
        requires
            self.wf(),
            self.parents_resolved(),
            self.never_vouches_for_waiting(events),
        ensures
            self.after_all(events).wf(),
            self.after_all(events).parents_resolved(),
        decreases events.len(),
    {
        if events.len() > 0 {
            self.lemma_after_all(events.drop_last());
            let before = self.after_all(events.drop_last());
            before.lemma_after_wf(events.last());
            before.lemma_after_parents_resolved(events.last());
        }
    }
}

} // verus!
