use headers_relay::headers::QueuedHeaders;
use headers_relay::sync_types::{
    H256, HeaderId, HeaderStatus, HeadersSyncPipeline, QueuedHeader, SourceHeader,
};

#[derive(Clone, Debug, PartialEq)]
struct TestHeader {
    number: u64,
    hash: H256,
    parent_hash: H256,
}

impl SourceHeader for TestHeader {
    fn id(&self) -> HeaderId {
        HeaderId(self.number, self.hash)
    }

    fn parent_hash(&self) -> H256 {
        self.parent_hash
    }
}

#[derive(Clone, Copy, Debug, PartialEq)]
struct TestPipeline;

impl HeadersSyncPipeline for TestPipeline {
    const SOURCE_NAME: &'static str = "Source";
    const TARGET_NAME: &'static str = "Target";

    type Header = TestHeader;
    type Extra = u32;

    fn estimate_size(_header: &QueuedHeader<Self>) -> usize {
        512
    }
}

type Queue = QueuedHeaders<TestPipeline>;

fn main_hash(number: u64) -> H256 {
    H256::from_low_u64(number)
}

fn fork_hash(number: u64) -> H256 {
    H256::from_low_u64(1000 + number)
}

fn main_id(number: u64) -> HeaderId {
    HeaderId(number, main_hash(number))
}

fn fork_id(number: u64) -> HeaderId {
    HeaderId(number, fork_hash(number))
}

/// The header of the main chain at `number`.
fn raw(number: u64) -> TestHeader {
    TestHeader { number, hash: main_hash(number), parent_hash: main_hash(number.saturating_sub(1)) }
}

/// A header of a side chain at `number` whose parent is on the main chain.
fn side_raw(number: u64) -> TestHeader {
    TestHeader { number, hash: fork_hash(number), parent_hash: main_hash(number - 1) }
}

/// The numbers of the headers of `status`, in queue order.
fn numbers(queue: &Queue, status: HeaderStatus) -> Vec<u64> {
    match queue.headers(status, |_| true) {
        Some(headers) => headers.iter().map(|header| header.id().0).collect(),
        None => Vec::new(),
    }
}

/// A queue that holds the headers `from..=to`, all in `MaybeExtra`, above a
/// target that knows the header before them.
fn queue_with(from: u64, to: u64) -> Queue {
    let mut queue = Queue::new();
    queue.target_best_header_response(&main_id(from - 1));
    for number in from..=to {
        queue.header_response(raw(number));
    }
    queue
}

const PAST_ANCESTRY: [HeaderStatus; 4] = [
    HeaderStatus::MaybeExtra,
    HeaderStatus::Extra,
    HeaderStatus::Ready,
    HeaderStatus::Submitted,
];

/// Whether every header past the question of its ancestry has a parent that is
/// past it too, or known to the target, or at or below the prune border.
fn parents_resolved(queue: &Queue) -> bool {
    PAST_ANCESTRY.iter().all(|status| match queue.headers(*status, |_| true) {
        Some(headers) => headers.iter().all(|header| match header.parent_id() {
            Some(parent) => {
                let parent_status = queue.status(&parent);
                PAST_ANCESTRY.contains(&parent_status)
                    || parent_status == HeaderStatus::Synced
                    || parent.0 <= queue.prune_border()
            }
            None => false,
        }),
        None => true,
    })
}

#[test]
fn new_queue_holds_nothing() {
    let queue = Queue::new();
    assert_eq!(queue.total_headers(), 0);
    assert_eq!(queue.best_queued_number(), 0);
    assert_eq!(queue.prune_border(), 0);
    assert_eq!(queue.status(&main_id(1)), HeaderStatus::Unknown);
    assert_eq!(queue.header(HeaderStatus::Ready), None);
    assert_eq!(queue.headers(HeaderStatus::Ready, |_| true), None);
    assert_eq!(queue.headers_in_status(HeaderStatus::Ready), 0);
    assert_eq!(queue.headers_in_status(HeaderStatus::Unknown), 0);
    assert_eq!(queue.headers_in_status(HeaderStatus::Synced), 0);
}

#[test]
fn queued_header_gives_id_and_parent_id() {
    let header = QueuedHeader::<TestPipeline>::new(raw(5));
    assert_eq!(header.id(), main_id(5));
    assert_eq!(header.parent_id(), Some(main_id(4)));
    assert_eq!(header.header(), &raw(5));
    assert_eq!(header.extra(), &None);

    let with_extra = header.set_extra(42);
    assert_eq!(with_extra.id(), main_id(5));
    assert_eq!(with_extra.extra(), &Some(42));

    let first = QueuedHeader::<TestPipeline>::new(raw(0));
    assert_eq!(first.id(), main_id(0));
    assert_eq!(first.parent_id(), None);
}

#[test]
fn header_with_unknown_parent_waits_for_its_ancestry() {
    let mut queue = Queue::new();
    queue.header_response(raw(5));
    assert_eq!(queue.status(&main_id(5)), HeaderStatus::MaybeOrphan);
    assert_eq!(queue.total_headers(), 1);
    assert_eq!(queue.best_queued_number(), 5);
    assert_eq!(queue.headers_in_status(HeaderStatus::MaybeOrphan), 1);

    // the parent waits itself
    queue.header_response(raw(6));
    assert_eq!(queue.status(&main_id(6)), HeaderStatus::MaybeOrphan);
}

#[test]
fn header_of_number_zero_is_not_taken_in() {
    let mut queue = Queue::new();
    queue.header_response(raw(0));
    assert_eq!(queue.status(&main_id(0)), HeaderStatus::Unknown);
    assert_eq!(queue.total_headers(), 0);
    queue.header_response(raw(1));
    assert_eq!(queue.status(&main_id(1)), HeaderStatus::MaybeOrphan);
    assert_eq!(queue.total_headers(), 1);
}

#[test]
fn header_with_orphan_parent_is_orphan() {
    let mut queue = Queue::new();
    queue.header_response(raw(5));
    queue.maybe_orphan_response(&main_id(4), false);
    assert_eq!(queue.status(&main_id(5)), HeaderStatus::Orphan);
    queue.header_response(raw(6));
    assert_eq!(queue.status(&main_id(6)), HeaderStatus::Orphan);
}

#[test]
fn header_with_resolved_parent_asks_for_extra() {
    // the target knows the parent
    let mut queue = Queue::new();
    queue.target_best_header_response(&main_id(4));
    assert_eq!(queue.status(&main_id(4)), HeaderStatus::Synced);
    queue.header_response(raw(5));
    assert_eq!(queue.status(&main_id(5)), HeaderStatus::MaybeExtra);

    // the parent is in `MaybeExtra`
    queue.header_response(raw(6));
    assert_eq!(queue.status(&main_id(6)), HeaderStatus::MaybeExtra);

    // the parent is in `Extra`
    queue.maybe_extra_response(&main_id(6), true);
    assert_eq!(queue.status(&main_id(6)), HeaderStatus::Extra);
    queue.header_response(raw(7));
    assert_eq!(queue.status(&main_id(7)), HeaderStatus::MaybeExtra);

    // the parent is in `Ready`
    queue.maybe_extra_response(&main_id(7), false);
    assert_eq!(queue.status(&main_id(7)), HeaderStatus::Ready);
    queue.header_response(raw(8));
    assert_eq!(queue.status(&main_id(8)), HeaderStatus::MaybeExtra);

    // the parent is in `Submitted`
    queue.maybe_extra_response(&main_id(8), false);
    queue.headers_submitted(vec![main_id(8)]);
    assert_eq!(queue.status(&main_id(8)), HeaderStatus::Submitted);
    queue.header_response(raw(9));
    assert_eq!(queue.status(&main_id(9)), HeaderStatus::MaybeExtra);
}

#[test]
fn header_that_arrives_again_changes_nothing() {
    let mut queue = Queue::new();
    queue.header_response(raw(5));
    queue.header_response(raw(5));
    assert_eq!(queue.total_headers(), 1);
    assert_eq!(queue.status(&main_id(5)), HeaderStatus::MaybeOrphan);

    // other headers arrive in between
    queue.header_response(raw(6));
    queue.header_response(raw(8));
    queue.header_response(raw(5));
    assert_eq!(queue.total_headers(), 3);
    assert_eq!(queue.status(&main_id(5)), HeaderStatus::MaybeOrphan);
    assert_eq!(numbers(&queue, HeaderStatus::MaybeOrphan), vec![5, 6, 8]);

    // the header has moved on in between
    queue.maybe_orphan_response(&main_id(4), true);
    queue.maybe_extra_response(&main_id(5), false);
    assert_eq!(queue.status(&main_id(5)), HeaderStatus::Ready);
    queue.header_response(raw(5));
    assert_eq!(queue.total_headers(), 3);
    assert_eq!(queue.status(&main_id(5)), HeaderStatus::Ready);

    // the target knows the header
    queue.target_best_header_response(&main_id(5));
    assert_eq!(queue.status(&main_id(5)), HeaderStatus::Synced);
    queue.header_response(raw(5));
    assert_eq!(queue.total_headers(), 2);
    assert_eq!(queue.status(&main_id(5)), HeaderStatus::Synced);
}

#[test]
fn header_at_or_below_the_prune_border_is_not_taken_in() {
    let mut queue = Queue::new();
    queue.prune(10);
    queue.header_response(raw(9));
    assert_eq!(queue.status(&main_id(9)), HeaderStatus::Unknown);
    queue.header_response(raw(10));
    assert_eq!(queue.status(&main_id(10)), HeaderStatus::Unknown);
    assert_eq!(queue.total_headers(), 0);

    queue.header_response(raw(11));
    assert_eq!(queue.status(&main_id(11)), HeaderStatus::MaybeOrphan);
    assert_eq!(queue.total_headers(), 1);
}

#[test]
fn headers_stand_in_the_order_of_their_numbers() {
    let mut queue = Queue::new();
    queue.header_response(raw(7));
    queue.header_response(raw(5));
    queue.header_response(raw(6));
    assert_eq!(queue.best_queued_number(), 7);
    assert_eq!(queue.header(HeaderStatus::MaybeOrphan).map(|header| header.id()), Some(main_id(5)));
    assert_eq!(numbers(&queue, HeaderStatus::MaybeOrphan), vec![5, 6, 7]);
}

#[test]
fn headers_of_one_number_stand_in_the_order_of_arrival() {
    let mut queue = Queue::new();
    queue.header_response(side_raw(5));
    queue.header_response(raw(5));
    queue.header_response(raw(4));
    let ids: Vec<HeaderId> = queue
        .headers(HeaderStatus::MaybeOrphan, |_| true)
        .unwrap()
        .iter()
        .map(|header| header.id())
        .collect();
    // both headers at 5 are children of the header at 4, which arrived later
    assert_eq!(ids, vec![main_id(4), fork_id(5), main_id(5)]);
    assert_eq!(queue.total_headers(), 3);
}

#[test]
fn headers_stops_at_the_first_that_is_rejected() {
    let queue = queue_with(5, 8);
    assert_eq!(numbers(&queue, HeaderStatus::MaybeExtra), vec![5, 6, 7, 8]);

    let below_seven = queue.headers(HeaderStatus::MaybeExtra, |header| header.id().0 < 7).unwrap();
    assert_eq!(below_seven.len(), 2);
    assert_eq!(below_seven[0].id(), main_id(5));
    assert_eq!(below_seven[1].id(), main_id(6));

    // a header that is rejected ends the walk, whatever follows it
    let not_six = queue.headers(HeaderStatus::MaybeExtra, |header| header.id().0 != 6).unwrap();
    assert_eq!(not_six.len(), 1);
    assert_eq!(not_six[0].id(), main_id(5));

    assert_eq!(queue.headers(HeaderStatus::MaybeExtra, |_| false), None);
    assert_eq!(queue.headers(HeaderStatus::Ready, |_| true), None);
    assert_eq!(queue.headers(HeaderStatus::Unknown, |_| true), None);
    assert_eq!(queue.headers(HeaderStatus::Synced, |_| true), None);
}

#[test]
fn header_gives_the_first_of_a_status() {
    let mut queue = queue_with(5, 7);
    queue.maybe_extra_response(&main_id(6), false);
    assert_eq!(queue.header(HeaderStatus::MaybeExtra).map(|header| header.id()), Some(main_id(5)));
    assert_eq!(queue.header(HeaderStatus::Ready).map(|header| header.id()), Some(main_id(6)));
    assert_eq!(queue.header(HeaderStatus::Submitted), None);
    assert_eq!(queue.headers_in_status(HeaderStatus::MaybeExtra), 2);
    assert_eq!(queue.headers_in_status(HeaderStatus::Ready), 1);
}

#[test]
fn parent_unknown_to_target_makes_waiting_descendants_orphans() {
    let mut queue = Queue::new();
    queue.header_response(raw(5));
    queue.header_response(raw(6));
    queue.header_response(side_raw(6));
    queue.header_response(raw(7));
    // a header of another line
    queue.header_response(raw(10));

    queue.maybe_orphan_response(&main_id(4), false);
    assert_eq!(queue.status(&main_id(5)), HeaderStatus::Orphan);
    assert_eq!(queue.status(&main_id(6)), HeaderStatus::Orphan);
    assert_eq!(queue.status(&fork_id(6)), HeaderStatus::Orphan);
    assert_eq!(queue.status(&main_id(7)), HeaderStatus::Orphan);
    assert_eq!(queue.status(&main_id(10)), HeaderStatus::MaybeOrphan);
    assert_eq!(queue.status(&main_id(4)), HeaderStatus::Unknown);
    assert_eq!(queue.total_headers(), 5);
}

#[test]
fn parent_unknown_to_target_leaves_headers_of_another_parent() {
    let mut queue = Queue::new();
    queue.header_response(raw(5));
    // same number as the parent asked for, another hash
    queue.maybe_orphan_response(&fork_id(4), false);
    assert_eq!(queue.status(&main_id(5)), HeaderStatus::MaybeOrphan);
}

#[test]
fn parent_known_to_target_promotes_waiting_descendants() {
    let mut queue = Queue::new();
    queue.header_response(raw(6));
    queue.maybe_orphan_response(&main_id(5), false);
    queue.header_response(raw(7));
    assert_eq!(queue.status(&main_id(6)), HeaderStatus::Orphan);
    assert_eq!(queue.status(&main_id(7)), HeaderStatus::Orphan);
    queue.header_response(raw(5));
    queue.header_response(raw(10));
    assert_eq!(queue.status(&main_id(5)), HeaderStatus::MaybeOrphan);

    queue.maybe_orphan_response(&main_id(4), true);
    assert_eq!(queue.status(&main_id(5)), HeaderStatus::MaybeExtra);
    assert_eq!(queue.status(&main_id(6)), HeaderStatus::MaybeExtra);
    assert_eq!(queue.status(&main_id(7)), HeaderStatus::MaybeExtra);
    assert_eq!(queue.status(&main_id(10)), HeaderStatus::MaybeOrphan);
    // the header that the target knows is remembered
    assert_eq!(queue.status(&main_id(4)), HeaderStatus::Synced);
    assert_eq!(queue.total_headers(), 4);
    assert_eq!(numbers(&queue, HeaderStatus::MaybeExtra), vec![5, 6, 7]);
    assert!(parents_resolved(&queue));
}

#[test]
fn parent_known_to_target_leaves_a_queued_parent_as_it_is() {
    let mut queue = Queue::new();
    queue.header_response(raw(5));
    queue.header_response(raw(6));
    queue.maybe_orphan_response(&main_id(5), true);
    assert_eq!(queue.status(&main_id(5)), HeaderStatus::MaybeOrphan);
    assert_eq!(queue.status(&main_id(6)), HeaderStatus::MaybeExtra);
}

#[test]
fn maybe_extra_response_moves_to_ready_or_extra() {
    let mut queue = queue_with(5, 7);
    queue.maybe_extra_response(&main_id(5), false);
    queue.maybe_extra_response(&main_id(6), true);
    assert_eq!(queue.status(&main_id(5)), HeaderStatus::Ready);
    assert_eq!(queue.status(&main_id(6)), HeaderStatus::Extra);
    assert_eq!(queue.status(&main_id(7)), HeaderStatus::MaybeExtra);

    // a second answer finds the header elsewhere and changes nothing
    queue.maybe_extra_response(&main_id(5), true);
    queue.maybe_extra_response(&main_id(6), false);
    assert_eq!(queue.status(&main_id(5)), HeaderStatus::Ready);
    assert_eq!(queue.status(&main_id(6)), HeaderStatus::Extra);

    // an answer for a header that the queue does not hold changes nothing
    queue.maybe_extra_response(&main_id(9), false);
    assert_eq!(queue.status(&main_id(9)), HeaderStatus::Unknown);
    assert_eq!(queue.total_headers(), 3);
}

#[test]
fn extra_response_makes_a_header_ready() {
    let mut queue = queue_with(5, 6);
    queue.maybe_extra_response(&main_id(5), true);
    assert_eq!(queue.status(&main_id(5)), HeaderStatus::Extra);

    // extra data for a header that does not wait for it is dropped
    queue.extra_response(&main_id(6), 7);
    assert_eq!(queue.status(&main_id(6)), HeaderStatus::MaybeExtra);
    assert_eq!(queue.header(HeaderStatus::MaybeExtra).unwrap().extra(), &None);

    queue.extra_response(&main_id(5), 42);
    assert_eq!(queue.status(&main_id(5)), HeaderStatus::Ready);
    let ready = queue.header(HeaderStatus::Ready).unwrap();
    assert_eq!(ready.id(), main_id(5));
    assert_eq!(ready.extra(), &Some(42));
    assert_eq!(queue.total_headers(), 2);
    assert_eq!(numbers(&queue, HeaderStatus::Ready), vec![5]);
    assert_eq!(numbers(&queue, HeaderStatus::MaybeExtra), vec![6]);
}

#[test]
fn headers_submitted_moves_ready_headers() {
    let mut queue = queue_with(5, 8);
    queue.maybe_extra_response(&main_id(5), false);
    queue.maybe_extra_response(&main_id(6), false);
    queue.headers_submitted(vec![main_id(5), main_id(7), main_id(9)]);
    assert_eq!(queue.status(&main_id(5)), HeaderStatus::Submitted);
    assert_eq!(queue.status(&main_id(6)), HeaderStatus::Ready);
    assert_eq!(queue.status(&main_id(7)), HeaderStatus::MaybeExtra);
    assert_eq!(queue.status(&main_id(9)), HeaderStatus::Unknown);
    assert_eq!(queue.headers_in_status(HeaderStatus::Submitted), 1);
    assert_eq!(queue.total_headers(), 4);

    queue.headers_submitted(Vec::new());
    assert_eq!(queue.headers_in_status(HeaderStatus::Submitted), 1);
}

#[test]
fn target_best_header_takes_its_chain_out_of_the_queue() {
    let mut queue = queue_with(5, 8);
    queue.header_response(side_raw(6));
    queue.maybe_extra_response(&main_id(5), false);
    queue.headers_submitted(vec![main_id(5)]);
    queue.maybe_extra_response(&main_id(6), false);

    queue.target_best_header_response(&main_id(6));
    assert_eq!(queue.status(&main_id(6)), HeaderStatus::Synced);
    assert_eq!(queue.status(&main_id(5)), HeaderStatus::Synced);
    assert_eq!(queue.status(&main_id(4)), HeaderStatus::Synced);
    // the header of the other line and the descendants stay
    assert_eq!(queue.status(&fork_id(6)), HeaderStatus::MaybeExtra);
    assert_eq!(queue.status(&main_id(7)), HeaderStatus::MaybeExtra);
    assert_eq!(queue.status(&main_id(8)), HeaderStatus::MaybeExtra);
    assert_eq!(queue.total_headers(), 3);
    assert_eq!(queue.headers_in_status(HeaderStatus::Submitted), 0);
    assert_eq!(queue.best_queued_number(), 8);
    assert!(parents_resolved(&queue));
}

#[test]
fn target_best_header_that_is_not_queued_is_remembered() {
    let mut queue = Queue::new();
    queue.header_response(raw(5));
    queue.target_best_header_response(&fork_id(5));
    assert_eq!(queue.status(&fork_id(5)), HeaderStatus::Synced);
    assert_eq!(queue.status(&main_id(5)), HeaderStatus::MaybeOrphan);
    assert_eq!(queue.total_headers(), 1);
}

#[test]
fn target_best_header_promotes_waiting_descendants() {
    let mut queue = Queue::new();
    queue.header_response(raw(6));
    queue.header_response(raw(7));
    queue.maybe_orphan_response(&main_id(5), false);
    queue.header_response(raw(5));
    assert_eq!(queue.status(&main_id(5)), HeaderStatus::MaybeOrphan);
    assert_eq!(queue.status(&main_id(6)), HeaderStatus::Orphan);

    queue.target_best_header_response(&main_id(5));
    assert_eq!(queue.status(&main_id(5)), HeaderStatus::Synced);
    assert_eq!(queue.status(&main_id(6)), HeaderStatus::MaybeExtra);
    assert_eq!(queue.status(&main_id(7)), HeaderStatus::MaybeExtra);
    assert_eq!(queue.total_headers(), 2);
    assert!(parents_resolved(&queue));
}

#[test]
fn prune_drops_what_is_at_or_below_the_border() {
    let mut queue = queue_with(5, 8);
    queue.header_response(side_raw(6));
    queue.header_response(side_raw(7));
    assert_eq!(queue.total_headers(), 6);
    queue.prune(6);
    assert_eq!(queue.prune_border(), 6);
    // what the target was known to have is forgotten as well
    assert_eq!(queue.status(&main_id(4)), HeaderStatus::Unknown);
    assert_eq!(queue.status(&main_id(5)), HeaderStatus::Unknown);
    // the headers at the border go, on every fork
    assert_eq!(queue.status(&main_id(6)), HeaderStatus::Unknown);
    assert_eq!(queue.status(&fork_id(6)), HeaderStatus::Unknown);
    // the headers above it stay
    assert_eq!(queue.status(&main_id(7)), HeaderStatus::MaybeExtra);
    assert_eq!(queue.status(&fork_id(7)), HeaderStatus::MaybeExtra);
    assert_eq!(queue.status(&main_id(8)), HeaderStatus::MaybeExtra);
    assert_eq!(queue.total_headers(), 3);
    assert_eq!(numbers(&queue, HeaderStatus::MaybeExtra), vec![7, 7, 8]);
    assert!(parents_resolved(&queue));
}

#[test]
fn prune_border_never_moves_back() {
    let mut queue = queue_with(5, 8);
    queue.prune(6);
    queue.prune(3);
    assert_eq!(queue.prune_border(), 6);
    queue.prune(6);
    assert_eq!(queue.prune_border(), 6);
    assert_eq!(queue.total_headers(), 2);
    queue.header_response(raw(5));
    assert_eq!(queue.status(&main_id(5)), HeaderStatus::Unknown);
    queue.prune(0);
    assert_eq!(queue.prune_border(), 6);
}

#[test]
fn prune_above_every_header_empties_the_queue() {
    let mut queue = queue_with(5, 8);
    queue.prune(100);
    assert_eq!(queue.total_headers(), 0);
    assert_eq!(queue.best_queued_number(), 0);
    assert_eq!(queue.prune_border(), 100);
}

#[test]
fn clear_forgets_everything() {
    let mut queue = queue_with(5, 8);
    queue.prune(6);
    queue.clear();
    assert_eq!(queue.total_headers(), 0);
    assert_eq!(queue.prune_border(), 0);
    assert_eq!(queue.status(&main_id(4)), HeaderStatus::Unknown);
    assert_eq!(queue.status(&main_id(7)), HeaderStatus::Unknown);
    queue.header_response(raw(3));
    assert_eq!(queue.status(&main_id(3)), HeaderStatus::MaybeOrphan);
}

#[test]
fn parents_are_resolved_before_their_children() {
    let mut queue = Queue::new();
    assert!(parents_resolved(&queue));
    queue.target_best_header_response(&fork_id(100));
    queue.header_response(raw(101));
    queue.header_response(raw(102));
    assert!(parents_resolved(&queue));
    queue.maybe_orphan_response(&main_id(100), false);
    queue.header_response(raw(100));
    queue.header_response(raw(103));
    assert!(parents_resolved(&queue));
    queue.maybe_orphan_response(&main_id(99), true);
    assert!(parents_resolved(&queue));
    assert_eq!(numbers(&queue, HeaderStatus::MaybeExtra), vec![100, 101, 102, 103]);
    queue.maybe_extra_response(&main_id(100), false);
    queue.maybe_extra_response(&main_id(101), true);
    queue.extra_response(&main_id(101), 1);
    assert!(parents_resolved(&queue));
    queue.headers_submitted(vec![main_id(100), main_id(101)]);
    assert!(parents_resolved(&queue));
    queue.target_best_header_response(&main_id(101));
    assert!(parents_resolved(&queue));
    queue.prune(102);
    assert!(parents_resolved(&queue));
    assert_eq!(numbers(&queue, HeaderStatus::MaybeExtra), vec![103]);
    queue.maybe_extra_response(&main_id(103), false);
    assert_eq!(queue.status(&main_id(103)), HeaderStatus::Ready);
    assert!(parents_resolved(&queue));
}
