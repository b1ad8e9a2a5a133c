//! Local, pre-gossip ordering of a device's own outgoing payments.
//!
//! `TxPriority` decides the order in which this device's own queued payments
//! are signed and handed to the mesh: an emergency payment queued while
//! offline goes out before a routine one queued earlier. Within a tier, the
//! payment queued first goes out first.

use vstd::prelude::*;

use crate::envelope::types::TransactionEnvelope;

verus! {

/// Dispatch tier of an outgoing payment.
#[derive(Debug, Clone, Copy, PartialEq, Eq, PartialOrd, Ord, Hash, Structural)]
pub enum TxPriority {
    Low,
    Normal,
    Emergency,
}

impl TxPriority {
    /// The tier's rank, higher first: also its stored code.
    pub open spec fn rank(self) -> int {
        match self {
            TxPriority::Low => 0,
            TxPriority::Normal => 1,
            TxPriority::Emergency => 2,
        }
    }

    /// The tier's stored code: 0 for low, 1 for normal, 2 for emergency.
    pub fn code(self) -> (code: i64)
        ensures
            code == self.rank(),
    {
        match self {
            TxPriority::Low => 0,
            TxPriority::Normal => 1,
            TxPriority::Emergency => 2,
        }
    }

    /// The tier with stored code `code`, if there is one.
    pub fn from_code(code: i64) -> (priority: Option<TxPriority>)
        ensures
            match priority {
                Some(p) => p.rank() == code,
                None => !(0 <= code <= 2),
            },
    {
        if code == 0 {
            Some(TxPriority::Low)
        } else if code == 1 {
            Some(TxPriority::Normal)
        } else if code == 2 {
            Some(TxPriority::Emergency)
        } else {
            None
        }
    }
}

/// A queued payment: its tier, when it was queued (Unix seconds), and the
/// envelope.
#[derive(Debug)]
struct QueuedTx {
    priority: TxPriority,
    enqueued_at: u64,
    envelope: TransactionEnvelope,
}

/// An entry of the queue as the contracts see it: tier, Unix seconds at
/// which it was queued, envelope.
pub type QueueEntry = (TxPriority, u64, TransactionEnvelope);

/// `a` goes out before `b`: a higher tier, or the same tier queued earlier.
pub open spec fn outranks(a: QueueEntry, b: QueueEntry) -> bool {
    ||| a.0.rank() > b.0.rank()
    ||| (a.0.rank() == b.0.rank() && a.1 < b.1)
}

/// Entry `i` is the one that goes out next: no entry outranks it, and it
/// outranks every entry before it (so among equals the earliest queued wins).
pub open spec fn is_next(queue: Seq<QueueEntry>, i: int) -> bool {
    &&& 0 <= i < queue.len()
    &&& forall|j: int| 0 <= j < queue.len() ==> !outranks(#[trigger] queue[j], queue[i])
    &&& forall|j: int| 0 <= j < i ==> outranks(queue[i], #[trigger] queue[j])
}

/// The position of the entry that goes out next.
pub open spec fn next_index(queue: Seq<QueueEntry>) -> int {
    choose|i: int| is_next(queue, i)
}

/// A queue has at most one next entry.
pub proof fn lemma_next_is_unique(queue: Seq<QueueEntry>, i: int, j: int)
    requires
        is_next(queue, i),
        is_next(queue, j),
    ensures
        i == j,
{
    if i < j {
        assert(outranks(queue[j], queue[i]));
    } else if j < i {
        assert(outranks(queue[i], queue[j]));
    }
}

/// Every non-empty queue has a next entry.
pub proof fn lemma_next_exists(queue: Seq<QueueEntry>)
    requires
        queue.len() > 0,
    ensures
        is_next(queue, next_index(queue)),
    decreases queue.len(),
{
    let n = queue.len() as int;
    if n == 1 {
        assert(is_next(queue, 0));
    } else {
        let shorter = queue.drop_last();
        lemma_next_exists(shorter);
        let b = next_index(shorter);
        assert forall|j: int| 0 <= j < n - 1 implies #[trigger] queue[j] == shorter[j] by {}
        if outranks(queue[n - 1], queue[b]) {
            assert(is_next(queue, n - 1));
        } else {
            assert(is_next(queue, b));
        }
    }
}

/// Of two payments taken out one after the other, the second never outranks
/// the first: the queue drains by tier, highest first, and within a tier in
/// the order the payments were queued.
pub proof fn lemma_drains_in_order(queue: Seq<QueueEntry>)
    requires
        queue.len() >= 2,
    ensures
        ({
            let first = next_index(queue);
            let rest = queue.remove(first);
            !outranks(rest[next_index(rest)], queue[first])
        }),
{
    lemma_next_exists(queue);
    let first = next_index(queue);
    let rest = queue.remove(first);
    lemma_next_exists(rest);
    let second = next_index(rest);
    if second < first {
        assert(rest[second] == queue[second]);
    } else {
        assert(rest[second] == queue[second + 1]);
    }
}

/// Reads the system clock as whole seconds since the Unix epoch
/// (`SystemTime::now`, then `duration_since(UNIX_EPOCH)`, 0 where the clock
/// reads before the epoch). Nothing is claimed of the value.
#[verifier::external_body]
fn unix_time_now() -> u64 {
    match std::time::SystemTime::now().duration_since(std::time::UNIX_EPOCH) {
        Ok(elapsed) => elapsed.as_secs(),
        Err(_) => 0,
    }
}

/// `seconds` is a value that a reading of the system clock can return.
pub closed spec fn is_clock_reading(seconds: u64) -> bool {
    call_ensures(unix_time_now, (), seconds)
}

/// A payment that `push` queues (stamped with the clock reading `now`)
/// never goes out ahead of a payment of the same tier already queued with a
/// stamp no later than `now`: it does not outrank that payment, and it is not
/// the next one out while that payment is queued. So where the clock has not
/// gone back, a payment pushed now waits behind the same-tier payments pushed
/// or restored (`push_at`) before it.
pub proof fn lemma_push_waits_behind_earlier_stamps(
    before: Seq<QueueEntry>,
    after: Seq<QueueEntry>,
    now: u64,
    i: int,
)
    requires
        after.len() == before.len() + 1,
        after.drop_last() == before,
        is_clock_reading(after.last().1),
        after.last().1 == now,
        0 <= i < before.len(),
        before[i].0 == after.last().0,
        before[i].1 <= now,
    ensures
        after[i] == before[i],
        !outranks(after.last(), after[i]),
        next_index(after) != after.len() - 1,
{
    assert(after[i] == after.drop_last()[i]);
    let last = after.len() - 1;
    assert(after[last] == after.last());
    lemma_next_exists(after);
    if next_index(after) == last {
        assert(outranks(after[last], after[i]));
    }
}

/// Two payments of one tier pushed one after the other, the clock reading no
/// earlier at the second push than at the first: the first goes out before
/// the second.
pub proof fn lemma_pushes_of_a_tier_leave_in_order(
    start: Seq<QueueEntry>,
    middle: Seq<QueueEntry>,
    end: Seq<QueueEntry>,
    first_now: u64,
    second_now: u64,
)
    requires
        middle.len() == start.len() + 1,
        middle.drop_last() == start,
        is_clock_reading(middle.last().1),
        middle.last().1 == first_now,
        end.len() == middle.len() + 1,
        end.drop_last() == middle,
        is_clock_reading(end.last().1),
        end.last().1 == second_now,
        middle.last().0 == end.last().0,
        first_now <= second_now,
    ensures
        !outranks(end.last(), end[middle.len() - 1]),
        next_index(end) != end.len() - 1,
{
    let i = middle.len() - 1;
    assert(middle[i] == middle.last());
    lemma_push_waits_behind_earlier_stamps(middle, end, second_now, i);
}

/// The device's outgoing envelopes, taken out by tier and, within a tier,
/// oldest first.
#[derive(Debug, Default)]
pub struct OutboundTxQueue {
    heap: Vec<QueuedTx>,
}

/// How the contracts see a queued payment.
spec fn entry_of(tx: QueuedTx) -> QueueEntry {
    (tx.priority, tx.enqueued_at, tx.envelope)
}

impl View for OutboundTxQueue {
    type V = Seq<QueueEntry>;

    /// The queued payments in the order they were queued.
    closed spec fn view(&self) -> Seq<QueueEntry> {
        self.heap@.map_values(|tx: QueuedTx| entry_of(tx))
    }
}

impl OutboundTxQueue {
    /// An empty queue.
    pub fn new() -> (queue: Self)
        ensures
            queue@ == Seq::<QueueEntry>::empty(),
    {
        let queue = OutboundTxQueue { heap: Vec::new() };
        assert(queue@ =~= Seq::<QueueEntry>::empty());
        queue
    }

    /// Queues `envelope` at `priority`, stamped with the current time.
    pub fn push(&mut self, envelope: TransactionEnvelope, priority: TxPriority)
        ensures
            final(self)@.len() == old(self)@.len() + 1,
            final(self)@.drop_last() == old(self)@,
            final(self)@.last().0 == priority,
            final(self)@.last().2 == envelope,
            is_clock_reading(final(self)@.last().1),
    {
        let enqueued_at = unix_time_now();
        self.push_at(envelope, priority, enqueued_at);
        assert(self@.drop_last() =~= old(self)@);
    }

    /// Queues `envelope` at `priority` with an explicit queueing time, as
    /// when a queue is restored from durable storage after a restart.
    pub fn push_at(&mut self, envelope: TransactionEnvelope, priority: TxPriority, enqueued_at: u64)
        ensures
            final(self)@ == old(self)@.push((priority, enqueued_at, envelope)),
    {
        self.heap.push(QueuedTx { priority, enqueued_at, envelope });
        assert(self@ =~= old(self)@.push((priority, enqueued_at, envelope)));
    }

    /// Position of the payment that goes out next.
    fn next_position(&self) -> (i: usize)
        requires
            self@.len() > 0,
        ensures
            is_next(self@, i as int),
    {
        let ghost queue = self@;
        let mut best: usize = 0;
        let mut i: usize = 1;
        while i < self.heap.len()
            invariant
                queue == self@,
                queue.len() == self.heap@.len(),
                best < i <= queue.len(),
                forall|j: int| 0 <= j < i ==> !outranks(#[trigger] queue[j], queue[best as int]),
                forall|j: int| 0 <= j < best ==> outranks(queue[best as int], #[trigger] queue[j]),
            decreases queue.len() - i,
        {
            let candidate = &self.heap[i];
            let current = &self.heap[best];
            assert(entry_of(*candidate) == queue[i as int]);
            assert(entry_of(*current) == queue[best as int]);
            let candidate_rank = candidate.priority.code();
            let current_rank = current.priority.code();
            if candidate_rank > current_rank || (candidate_rank == current_rank
                && candidate.enqueued_at < current.enqueued_at) {
                best = i;
            }
            i = i + 1;
        }
        best
    }

    /// Takes out the envelope that goes out next, or `None` where the queue
    /// is empty.
    pub fn pop(&mut self) -> (next: Option<TransactionEnvelope>)
        ensures
            match next {
                Some(envelope) => {
                    &&& old(self)@.len() > 0
                    &&& envelope == old(self)@[next_index(old(self)@)].2
                    &&& final(self)@ == old(self)@.remove(next_index(old(self)@))
                },
                None => old(self)@.len() == 0 && final(self)@ == old(self)@,
            },
    {
        if self.heap.len() == 0 {
            return None;
        }
        let i = self.next_position();
        proof {
            lemma_next_exists(self@);
            lemma_next_is_unique(self@, i as int, next_index(self@));
        }
        let tx = self.heap.remove(i);
        assert(self@ =~= old(self)@.remove(i as int));
        Some(tx.envelope)
    }

    /// The envelope that goes out next, left in the queue; `None` where the
    /// queue is empty.
    pub fn peek(&self) -> (next: Option<&TransactionEnvelope>)
        ensures
            match next {
                Some(envelope) => self@.len() > 0 && *envelope == self@[next_index(self@)].2,
                None => self@.len() == 0,
            },
    {
        if self.heap.len() == 0 {
            return None;
        }
        let i = self.next_position();
        proof {
            lemma_next_exists(self@);
            lemma_next_is_unique(self@, i as int, next_index(self@));
        }
        Some(&self.heap[i].envelope)
    }

    /// The number of queued envelopes.
    pub fn len(&self) -> (n: usize)
        ensures
            n == self@.len(),
    {
        self.heap.len()
    }

    /// Whether nothing is queued.
    pub fn is_empty(&self) -> (empty: bool)
        ensures
            empty == (self@.len() == 0),
    {
        self.heap.len() == 0
    }
}

} // verus!
