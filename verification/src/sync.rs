//! The synchronization scheduler: what to download next and what to submit next.

use crate::headers::{Entry, QueueView, QueuedHeaders};
use crate::transitions::QueueEvent;
use crate::numbers::{one, saturating_sub, saturating_sub_spec};
use crate::sync_types::{HeaderId, HeaderStatus, HeadersSyncPipeline, QueuedHeader, SourceHeader};
use vstd::prelude::*;

verus! {

/// How headers are submitted to the target.
#[derive(Clone, Copy, Debug, PartialEq, Eq, Structural)]
pub enum TargetTransactionMode {
    /// Submit new headers using signed transactions.
    Signed,
    /// Submit new headers using unsigned transactions.
    Unsigned,
    /// Submit new headers using signed transactions, but only when the
    /// synchronization is believed to have stalled.
    Backup,
}

/// Parameters of the synchronization.
#[derive(Clone, Copy, Debug)]
pub struct HeadersSyncParams {
    /// The number of queued headers from which on no further header is downloaded.
    pub max_future_headers_to_download: usize,
    /// The greatest number of headers that may be submitted and not yet confirmed.
    pub max_headers_in_submitted_status: usize,
    /// The greatest number of headers in a single submission.
    pub max_headers_in_single_submit: usize,
    /// The greatest total size of the headers in a single submission.
    pub max_headers_size_in_single_submit: usize,
    /// Headers with a number at or below that of the target's best header
    /// less this depth are neither kept nor accepted.
    pub prune_depth: u32,
    /// How headers are submitted to the target.
    pub target_tx_mode: TargetTransactionMode,
}

/// The sum of the estimated sizes of the headers.
pub open spec fn total_size<P: HeadersSyncPipeline>(headers: Seq<QueuedHeader<P>>) -> int
    decreases headers.len(),
{
    if headers.len() == 0 {
        0
    } else {
        total_size(headers.drop_last()) + P::spec_estimate_size(&headers.last())
    }
}

/// The scheduler as a mathematical value.
pub struct SyncView<P: HeadersSyncPipeline> {
    /// The parameters of the synchronization.
    pub params: HeadersSyncParams,
    /// The number of the best header of the source, once it has been reported.
    pub source_best_number: Option<u64>,
    /// The best header of the target, once it has been reported.
    pub target_best_header: Option<HeaderId>,
    /// The queue of headers.
    pub headers: QueueView<P>,
}

impl<P: HeadersSyncPipeline> SyncView<P> {
    /// The scheduler that has heard of nothing yet.
    pub open spec fn initial(params: HeadersSyncParams) -> Self {
        SyncView {
            params,
            source_best_number: None,
            target_best_header: None,
            headers: QueueView::empty(),
        }
    }

    /// Whether almost every known header of the source has reached the target.
    pub open spec fn is_almost_synced(self) -> bool {
        match self.source_best_number {
            Some(source_best_number) => match self.target_best_header {
                Some(best) => saturating_sub_spec(source_best_number, best.0) < 4,
                None => false,
            },
            None => true,
        }
    }

    /// The greatest number that needs no download: that of the best queued
    /// header or that of the target's best header, whichever is greater.
    pub open spec fn best_downloaded_number(self) -> u64 {
        let queued = self.headers.best_queued_number();
        match self.target_best_header {
            Some(best) => if queued >= best.0 {
                queued
            } else {
                best.0
            },
            None => queued,
        }
    }

    /// Whether there is a header to download: both chains have reported, the
    /// queue has room, and the source is not caught up with.
    pub open spec fn wants_download(self) -> bool {
        &&& self.source_best_number.is_some()
        &&& self.target_best_header.is_some()
        &&& self.headers.entries.len() < self.params.max_future_headers_to_download
        &&& self.best_downloaded_number() != self.source_best_number.unwrap()
    }

    /// The number of the header to download next, if there is one.
    pub open spec fn header_to_download(self) -> Option<u64> {
        if self.wants_download() {
            Some((self.best_downloaded_number() + 1) as u64)
        } else {
            None
        }
    }

    /// The headers that are ready for submission, in queue order.
    pub open spec fn ready(self) -> Seq<QueuedHeader<P>> {
        self.headers.in_status(HeaderStatus::Ready)
    }

    /// How many more headers may be submitted before one is confirmed;
    /// negative if more are submitted already than the parameters allow.
    pub open spec fn submit_budget(self) -> int {
        self.params.max_headers_in_submitted_status - self.headers.in_status(
            HeaderStatus::Submitted,
        ).len()
    }

    /// Whether the first `n` ready headers may be submitted together: they
    /// are within the budget and within the greatest number of a single
    /// submission, and, if they are more than one, within its greatest size.
    pub open spec fn fits(self, n: int) -> bool {
        &&& 0 <= n <= self.ready().len()
        &&& n <= self.submit_budget()
        &&& n <= self.params.max_headers_in_single_submit
        &&& n <= 1 || total_size(self.ready().take(n)) <= self.params.max_headers_size_in_single_submit
    }

    /// Whether headers may be submitted at all: not in backup mode unless
    /// stalled, and not while more headers are submitted already than the
    /// parameters allow.
    pub open spec fn may_submit(self, stalled: bool) -> bool {
        &&& self.params.target_tx_mode != TargetTransactionMode::Backup || stalled
        &&& self.submit_budget() >= 0
    }

    /// Whether `n` ready headers fit and one more does not.
    pub open spec fn fits_at_most(self, n: int) -> bool {
        self.fits(n) && !self.fits(n + 1)
    }

    /// Whether `n` is the number of headers to submit next: as many ready
    /// headers as fit, and none where none may be submitted.
    pub open spec fn is_batch_len(self, stalled: bool, n: int) -> bool {
        if self.may_submit(stalled) {
            self.fits_at_most(n)
        } else {
            n == 0
        }
    }

    /// The number of headers to submit next.
    pub open spec fn batch_len(self, stalled: bool) -> int {
        choose|n: int| self.is_batch_len(stalled, n)
    }

    /// The scheduler after the target has reported its best header.
    ///
    /// A report of the header that is recorded already changes nothing. Any
    /// other is taken in by the queue, which is then pruned up to the
    /// header's number less the prune depth, and is recorded.
    pub open spec fn target_best_header_response(self, best_header: HeaderId) -> Self {
        if self.target_best_header == Some(best_header) {
            self
        } else {
            SyncView {
                target_best_header: Some(best_header),
                headers: self.headers.target_best_header_response(best_header).prune(
                    saturating_sub_spec(best_header.0, self.params.prune_depth as u64),
                ),
                ..self
            }
        }
    }
}

/// The size of headers grows with their number.
pub proof fn lemma_total_size_step<P: HeadersSyncPipeline>(headers: Seq<QueuedHeader<P>>, n: int)
    requires
        0 <= n < headers.len(),
    ensures
        total_size(headers.take(n + 1)) == total_size(headers.take(n)) + P::spec_estimate_size(
            &headers[n],
        ),
        total_size(headers.take(n)) >= 0,
    decreases n,
{
    assert(headers.take(n + 1).drop_last() =~= headers.take(n));
    if n > 0 {
        lemma_total_size_step(headers, n - 1);
    }
}

impl<P: HeadersSyncPipeline> SyncView<P> {
    /// Where a number of headers fits, every smaller number fits.
    pub proof fn lemma_fits_fewer(self, n: int, m: int)
        requires
            self.fits(n),
            0 <= m <= n,
        ensures
            self.fits(m),
        decreases n - m,
    {
        if m < n {
            lemma_total_size_step(self.ready(), n - 1);
            assert(self.fits(n - 1));
            self.lemma_fits_fewer(n - 1, m);
        }
    }

    /// From a number of headers that fits, a greatest such number is reached.
    pub proof fn lemma_fits_greatest(self, n: int)
        requires
            self.fits(n),
        ensures
            exists|m: int| n <= m && #[trigger] self.fits_at_most(m),
        decreases self.ready().len() - n,
    {
        if self.fits(n + 1) {
            self.lemma_fits_greatest(n + 1);
        } else {
            assert(self.fits_at_most(n));
        }
    }

    /// The number of headers to submit next is as `is_batch_len` says: the
    /// greatest number of ready headers that fits, and zero where none may be submitted.
    pub proof fn lemma_batch_len(self, stalled: bool)
        ensures
            self.is_batch_len(stalled, self.batch_len(stalled)),
            0 <= self.batch_len(stalled) <= self.ready().len(),
            self.batch_len(stalled) <= self.params.max_headers_in_single_submit,
            self.batch_len(stalled) > 1 ==> total_size(
                self.ready().take(self.batch_len(stalled)),
            ) <= self.params.max_headers_size_in_single_submit,
            !self.may_submit(stalled) ==> self.batch_len(stalled) == 0,
    {
        if self.may_submit(stalled) {
            assert(self.fits(0));
            self.lemma_fits_greatest(0);
            let m = choose|m: int| 0 <= m && #[trigger] self.fits_at_most(m);
            assert(self.is_batch_len(stalled, m));
        } else {
            assert(self.is_batch_len(stalled, 0));
        }
    }

    /// Backup mode submits nothing while the synchronization is not stalled,
    /// and what every other mode submits once it is.
    pub proof fn lemma_backup_mode(self, mode: TargetTransactionMode, stalled: bool)
        requires
            self.params.target_tx_mode == TargetTransactionMode::Backup,
            mode != TargetTransactionMode::Backup,
        ensures
            self.batch_len(false) == 0,
            self.batch_len(true) == (SyncView {
                params: HeadersSyncParams { target_tx_mode: mode, ..self.params },
                ..self
            }).batch_len(stalled),
    {
        let other = SyncView {
            params: HeadersSyncParams { target_tx_mode: mode, ..self.params },
            ..self
        };
        self.lemma_batch_len(false);
        other.lemma_batch_len(stalled);
        let n = other.batch_len(stalled);
        assert(other.ready() == self.ready());
        assert(other.fits(n) == self.fits(n));
        assert(other.fits(n + 1) == self.fits(n + 1));
        self.lemma_batch_len_unique(true, n);
    }

    /// A report of the target's best header prunes exactly up to the header's
    /// number less the prune depth.
    ///
    /// The report of the header that is recorded already changes nothing. After
    /// any other, the queue holds those headers that it held once it had taken
    /// the report in, and whose numbers are above the header's number less the
    /// prune depth, and no others; and the prune border has not moved back.
    pub proof fn lemma_target_best_header_response(self, best_header: HeaderId)
        requires
            self.headers.wf(),
        ensures
            self.target_best_header == Some(best_header) ==> self.target_best_header_response(
                best_header,
            ) == self,
            self.target_best_header != Some(best_header) ==> {
                let border = saturating_sub_spec(best_header.0, self.params.prune_depth as u64);
                let taken_in = self.headers.target_best_header_response(best_header);
                let after = self.target_best_header_response(best_header);
                &&& after.headers.wf()
                &&& after.headers.prune_border == if border > self.headers.prune_border {
                    border
                } else {
                    self.headers.prune_border
                }
                &&& forall|entry: Entry<P>| #[trigger]
                    after.headers.entries.contains(entry) <==> taken_in.entries.contains(entry)
                        && entry.number() > border
            },
    {
        if self.target_best_header != Some(best_header) {
            self.headers.lemma_after_wf(QueueEvent::TargetBestHeaderResponse(best_header));
            let taken_in = self.headers.target_best_header_response(best_header);
            self.headers.lemma_with_chain_synced(best_header);
            assert(taken_in.prune_border == self.headers.prune_border);
            taken_in.lemma_prune(
                saturating_sub_spec(best_header.0, self.params.prune_depth as u64),
            );
        }
    }

    /// Headers are asked for one by one, none left out and none asked for again.
    ///
    /// Once the header that was asked for has arrived and the queue has taken
    /// it in, its number is the best downloaded number, and the header that is
    /// asked for next, if any, is its successor.
    pub proof fn lemma_downloads_in_sequence(self, header: P::Header)
        requires
            self.headers.wf(),
            self.best_downloaded_number() < u64::MAX,
            self.header_to_download() == Some(header.spec_id().0),
            self.headers.accepts(header.spec_id()),
        ensures
            ({
                let after = SyncView { headers: self.headers.header_response(header), ..self };
                &&& after.headers.entries.len() == self.headers.entries.len() + 1
                &&& after.best_downloaded_number() == header.spec_id().0
                &&& after.wants_download() ==> after.header_to_download() == Some(
                    (header.spec_id().0 + 1) as u64,
                )
            }),
    {
        let number = header.spec_id().0;
        let queue = self.headers;
        queue.lemma_header_response(header);
        assert(queue.parts_at(number + 1, queue.entries.len() as int)) by {
            assert forall|i: int| 0 <= i < queue.entries.len() implies (
            #[trigger] queue.entries[i]).number() < number + 1 by {
                assert(queue.entries[i].number() <= queue.entries[queue.entries.len()
                    - 1].number());
            }
        }
        queue.lemma_parts_unique(number + 1, queue.entries.len() as int);
    }

    /// Only one number is the number of headers to submit next.
    pub proof fn lemma_batch_len_unique(self, stalled: bool, n: int)
        requires
            self.is_batch_len(stalled, n),
        ensures
            self.batch_len(stalled) == n,
    {
        let m = self.batch_len(stalled);
        assert(self.is_batch_len(stalled, m));
        if self.may_submit(stalled) {
            if m < n {
                self.lemma_fits_fewer(n, m + 1);
            } else if n < m {
                self.lemma_fits_fewer(m, n + 1);
            }
        }
    }
}

/// The synchronization scheduler.
#[derive(Debug)]
pub struct HeadersSync<P: HeadersSyncPipeline> {
    /// The parameters of the synchronization.
    params: HeadersSyncParams,
    /// The number of the best header of the source, once it has been reported.
    source_best_number: Option<u64>,
    /// The best header of the target, once it has been reported.
    target_best_header: Option<HeaderId>,
    /// The queue of headers.
    headers: QueuedHeaders<P>,
}

impl<P: HeadersSyncPipeline> View for HeadersSync<P> {
    type V = SyncView<P>;

    closed spec fn view(&self) -> SyncView<P> {
        SyncView {
            params: self.params,
            source_best_number: self.source_best_number,
            target_best_header: self.target_best_header,
            headers: self.headers@,
        }
    }
}

impl<P: HeadersSyncPipeline> HeadersSync<P> {
    /// What holds of every scheduler that this module hands out: its queue is well-formed.
    pub open spec fn wf(&self) -> bool {
        self@.headers.wf()
    }

    /// Returns a scheduler that has heard of nothing yet.
    pub fn new(params: HeadersSyncParams) -> (r: Self)
        ensures
            r.wf(),
            r@ == SyncView::<P>::initial(params),
    {
        HeadersSync {
            headers: QueuedHeaders::new(),
            params,
            source_best_number: None,
            target_best_header: None,
        }
    }

    /// Returns whether almost every known header of the source has reached the target.
    pub fn is_almost_synced(&self) -> (r: bool)
        ensures
            r == self@.is_almost_synced(),
    {
        match self.source_best_number {
            Some(source_best_number) => match self.target_best_header {
                Some(best) => saturating_sub(source_best_number, best.0) < 4,
                None => false,
            },
            None => true,
        }
    }

    /// Returns the best header of the target and the number of the best
    /// header of the source, as far as they have been reported.
    pub fn status(&self) -> (r: (&Option<HeaderId>, &Option<u64>))
        ensures
            *r.0 == self@.target_best_header,
            *r.1 == self@.source_best_number,
    {
        (&self.target_best_header, &self.source_best_number)
    }

    /// Returns the parameters of the synchronization.
    pub fn params(&self) -> (r: &HeadersSyncParams)
        ensures
            *r == self@.params,
    {
        &self.params
    }

    /// Returns the queue of headers.
    pub fn headers(&self) -> (r: &QueuedHeaders<P>)
        ensures
            r@ == self@.headers,
    {
        &self.headers
    }

    /// Returns the queue of headers for changing it.
    pub fn headers_mut(&mut self) -> (r: &mut QueuedHeaders<P>)
        ensures
            r@ == old(self)@.headers,
            final(self)@ == (SyncView { headers: final(r)@, ..old(self)@ }),
    {
        &mut self.headers
    }

    /// Returns the number of the header to download next, if there is one.
    pub fn select_new_header_to_download(&self) -> (r: Option<u64>)
        requires
            self@.wants_download() ==> self@.best_downloaded_number() < u64::MAX,
        ensures
            r == self@.header_to_download(),
    {
        let source_best_number = match self.source_best_number {
            Some(number) => number,
            None => return None,
        };
        let target_best_header = match self.target_best_header {
            Some(header) => header,
            None => return None,
        };
        let in_memory_headers = self.headers.total_headers();
        if in_memory_headers >= self.params.max_future_headers_to_download {
            return None;
        }
        let best_queued_number = self.headers.best_queued_number();
        let best_downloaded_number = if best_queued_number >= target_best_header.0 {
            best_queued_number
        } else {
            target_best_header.0
        };
        if best_downloaded_number == source_best_number {
            return None;
        }
        Some(best_downloaded_number + one())
    }

    /// Returns the headers to submit next, in queue order, if there are any.
    ///
    /// In backup mode nothing is submitted unless `stalled`. Otherwise the
    /// ready headers are taken in queue order for as long as they fit: within
    /// the number that may still be submitted, within the greatest number of
    /// a single submission and, but for the first, within its greatest size.
    pub fn select_headers_to_submit(&self, stalled: bool) -> (r: Option<Vec<&QueuedHeader<P>>>)
        ensures
            match r {
                Some(batch) => {
                    &&& batch@.len() > 0
                    &&& batch@.len() == self@.batch_len(stalled)
                    &&& self@.may_submit(stalled)
                    &&& self@.fits_at_most(batch@.len() as int)
                    &&& forall|i: int|
                        0 <= i < batch@.len() ==> *(#[trigger] batch@[i]) == self@.ready()[i]
                },
                None => self@.batch_len(stalled) == 0 && (!self@.may_submit(stalled)
                    || !self@.fits(1)),
            },
    {
        if self.params.target_tx_mode == TargetTransactionMode::Backup && !stalled {
            proof {
                self@.lemma_batch_len_unique(stalled, 0);
            }
            return None;
        }
        let headers_in_submit_status = self.headers.headers_in_status(HeaderStatus::Submitted);
        let headers_to_submit_count = match self.params.max_headers_in_submitted_status.checked_sub(
            headers_in_submit_status,
        ) {
            Some(count) => count,
            None => {
                proof {
                    self@.lemma_batch_len_unique(stalled, 0);
                }
                return None;
            },
        };
        let accept_all = |header: &QueuedHeader<P>| -> (accepted: bool)
            ensures
                accepted,
            { true };
        let ready = match self.headers.headers(HeaderStatus::Ready, accept_all) {
            Some(ready) => ready,
            None => {
                proof {
                    assert(self@.ready().len() == 0);
                    self@.lemma_batch_len_unique(stalled, 0);
                }
                return None;
            },
        };
        assert(ready@.len() == self@.ready().len());
        let mut batch: Vec<&QueuedHeader<P>> = Vec::new();
        let mut total: usize = 0;
        let mut stopped = false;
        while batch.len() < ready.len() && !stopped
            invariant
                ready@.len() == self@.ready().len(),
                forall|i: int| 0 <= i < ready@.len() ==> *(#[trigger] ready@[i]) == self@.ready()[i],
                headers_to_submit_count == self@.submit_budget(),
                self@.may_submit(stalled),
                batch@.len() <= ready@.len(),
                forall|i: int| 0 <= i < batch@.len() ==> #[trigger] batch@[i] == ready@[i],
                self@.fits(batch@.len() as int),
                total == total_size(self@.ready().take(batch@.len() as int)),
                stopped ==> !self@.fits(batch@.len() as int + 1),
            decreases
                    ready.len() - batch.len(),
                    (if stopped {
                        0int
                    } else {
                        1int
                    }),
        {
            let n = batch.len();
            proof {
                lemma_total_size_step(self@.ready(), n as int);
            }
            if n == headers_to_submit_count || n == self.params.max_headers_in_single_submit {
                stopped = true;
            } else {
                let header: &QueuedHeader<P> = ready[n];
                let encoded_size = P::estimate_size(header);
                match total.checked_add(encoded_size) {
                    Some(sum) => {
                        if n != 0 && sum > self.params.max_headers_size_in_single_submit {
                            stopped = true;
                        } else {
                            total = sum;
                            batch.push(header);
                        }
                    },
                    None => {
                        stopped = true;
                    },
                }
            }
        }
        proof {
            self@.lemma_batch_len_unique(stalled, batch@.len() as int);
        }
        if batch.len() == 0 {
            None
        } else {
            Some(batch)
        }
    }

    /// Takes in the number of the best header of the source.
    pub fn source_best_header_number_response(&mut self, best_header_number: u64)
        ensures
            final(self)@ == (SyncView {
                source_best_number: Some(best_header_number),
                ..old(self)@
            }),
    {
        self.source_best_number = Some(best_header_number);
    }

    /// Takes in the best header of the target. Returns whether it differs
    /// from the one recorded before.
    pub fn target_best_header_response(&mut self, best_header: HeaderId) -> (r: bool)
        requires
            old(self).wf(),
        ensures
            final(self).wf(),
            r == (old(self)@.target_best_header != Some(best_header)),
            final(self)@ == old(self)@.target_best_header_response(best_header),
    {
        if self.target_best_header == Some(best_header) {
            return false;
        }
        self.headers.target_best_header_response(&best_header);
        self.headers.prune(saturating_sub(best_header.0, self.params.prune_depth as u64));
        self.target_best_header = Some(best_header);
        true
    }

    /// Forgets everything but the parameters.
    pub fn restart(&mut self)
        ensures
            final(self).wf(),
            final(self)@ == SyncView::<P>::initial(old(self)@.params),
    {
        self.source_best_number = None;
        self.target_best_header = None;
        self.headers.clear();
    }
}

} // verus!
