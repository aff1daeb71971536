//! Deliveries that failed and wait for another attempt, and the flag that
//! says whether a recovery worker is draining them.

use std::collections::VecDeque;
use vstd::prelude::*;

verus! {

/// How one attempt to deliver a value to a peer ended.
#[derive(Clone, Copy, Debug, PartialEq, Eq, Structural)]
pub enum DeliveryOutcome {
    /// The peer answered in time.
    Delivered,
    /// No answer came within the timeout.
    TimedOut,
    /// The transport reported an error.
    TransportError,
}

/// One delivery that is still owed: `message` has to reach `node`.
#[derive(Debug, PartialEq, Eq)]
pub struct QueueItem {
    pub node: String,
    pub message: u64,
}

impl View for QueueItem {
    type V = (Seq<char>, u64);

    open spec fn view(&self) -> (Seq<char>, u64) {
        (self.node@, self.message)
    }
}

/// The queue as contracts see it.
pub struct QueueState {
    /// Whether a recovery worker is active.
    pub running: bool,
    /// The deliveries that wait, the oldest first.
    pub pending: Seq<(Seq<char>, u64)>,
}

/// The queue of a node that has just started.
pub open spec fn idle() -> QueueState {
    QueueState { running: false, pending: Seq::empty() }
}

/// Deliveries wait only while a worker is active.
pub open spec fn attended(q: QueueState) -> bool {
    !q.running ==> q.pending.len() == 0
}

/// The queue after `item` has joined it: the item stands last, and a worker
/// is active from now on.
pub open spec fn enqueued(q: QueueState, item: (Seq<char>, u64)) -> QueueState {
    QueueState { running: true, pending: q.pending.push(item) }
}

/// The queue after the worker has asked for its next item: the oldest one
/// has left, or, where none waited, the worker has stopped.
pub open spec fn taken(q: QueueState) -> QueueState {
    if q.pending.len() > 0 {
        QueueState { running: q.running, pending: q.pending.drop_first() }
    } else {
        QueueState { running: false, pending: q.pending }
    }
}

/// The queue after an attempt to deliver `item` has ended in `outcome`: a
/// failed delivery joins the queue, a successful one leaves no trace.
pub open spec fn settled(
    q: QueueState,
    item: (Seq<char>, u64),
    outcome: DeliveryOutcome,
) -> QueueState {
    if outcome == DeliveryOutcome::Delivered {
        q
    } else {
        enqueued(q, item)
    }
}

/// Something that happens to the queue of a running node.
pub enum QueueEvent {
    /// A delivery failed and its item joins the queue.
    Failure { item: (Seq<char>, u64) },
    /// An active worker asks for its next item.
    Turn,
}

/// The queue and the number of active workers after `events` have happened
/// to a node that started idle. A worker starts where an item joins a queue
/// whose flag is down, and ends where its turn finds nothing waiting; a
/// turn takes place only while a worker is active.
pub open spec fn history(events: Seq<QueueEvent>) -> (QueueState, int)
    decreases events.len(),
{
    if events.len() == 0 {
        (idle(), 0)
    } else {
        let (q, workers) = history(events.drop_last());
        match events.last() {
            QueueEvent::Failure { item } => (
                enqueued(q, item),
                if q.running {
                    workers
                } else {
                    workers + 1
                },
            ),
            QueueEvent::Turn => if workers > 0 {
                (
                    taken(q),
                    if q.pending.len() == 0 {
                        workers - 1
                    } else {
                        workers
                    },
                )
            } else {
                (q, workers)
            },
        }
    }
}

/// At most one recovery worker is ever active, and it is active exactly
/// while the flag is up; whatever waits in the queue has a worker.
pub proof fn lemma_single_worker(events: Seq<QueueEvent>)
    ensures
        0 <= history(events).1 <= 1,
        history(events).0.running <==> history(events).1 == 1,
        attended(history(events).0),
    decreases events.len(),
{
    if events.len() > 0 {
        lemma_single_worker(events.drop_last());
    }
}

/// The queue after one turn of the worker that ends in `outcome`: the oldest
/// item leaves and, where its delivery failed, joins again as the last.
/// Where nothing waits the worker stops.
pub open spec fn worker_turn(q: QueueState, outcome: DeliveryOutcome) -> QueueState {
    if q.pending.len() > 0 {
        settled(taken(q), q.pending[0], outcome)
    } else {
        taken(q)
    }
}

/// The queue after one turn of the worker for each of `outcomes`.
pub open spec fn worker_turns(q: QueueState, outcomes: Seq<DeliveryOutcome>) -> QueueState
    decreases outcomes.len(),
{
    if outcomes.len() == 0 {
        q
    } else {
        worker_turns(worker_turn(q, outcomes[0]), outcomes.drop_first())
    }
}

/// A delivery that fails again goes to the back of the queue, behind every
/// other one that waits.
pub proof fn lemma_failed_turn_rotates(q: QueueState, outcome: DeliveryOutcome)
    requires
        q.pending.len() > 0,
        outcome != DeliveryOutcome::Delivered,
    ensures
        worker_turn(q, outcome).pending == q.pending.drop_first().push(q.pending[0]),
        worker_turn(q, outcome).running,
{
}

/// No delivery that is owed gets lost: whatever waited before a turn of the
/// worker waits after it, but for the oldest item where its delivery
/// succeeded.
pub proof fn lemma_turn_keeps_obligations(
    q: QueueState,
    outcome: DeliveryOutcome,
    item: (Seq<char>, u64),
)
    requires
        q.pending.contains(item),
    ensures
        worker_turn(q, outcome).pending.contains(item) || (item == q.pending[0] && outcome
            == DeliveryOutcome::Delivered),
{
    let after = worker_turn(q, outcome).pending;
    let i = choose|i: int| 0 <= i < q.pending.len() && q.pending[i] == item;
    if i > 0 {
        assert(after[i - 1] == item);
    } else if outcome != DeliveryOutcome::Delivered {
        assert(after[q.pending.len() - 1] == item);
    }
}

/// Once every delivery succeeds the queue drains: after one turn for each
/// item that waits, and one more, nothing waits and the flag is down.
/// Further turns change nothing.
pub proof fn lemma_queue_drains(q: QueueState, outcomes: Seq<DeliveryOutcome>)
    requires
        forall|i: int| 0 <= i < outcomes.len() ==> outcomes[i] == DeliveryOutcome::Delivered,
        outcomes.len() > q.pending.len(),
    ensures
        worker_turns(q, outcomes) == idle(),
    decreases outcomes.len(),
{
    let next = worker_turn(q, outcomes[0]);
    let rest = outcomes.drop_first();
    if q.pending.len() == 0 {
        assert(next.pending =~= Seq::empty());
        assert(next == idle());
        if rest.len() > 0 {
            lemma_queue_drains(next, rest);
        }
    } else {
        lemma_queue_drains(next, rest);
    }
}

/// The failed deliveries of one node, with the flag of its recovery worker.
pub struct RetryQueue {
    thread_running: bool,
    items: VecDeque<QueueItem>,
}

impl View for RetryQueue {
    type V = QueueState;

    closed spec fn view(&self) -> QueueState {
        QueueState {
            running: self.thread_running,
            pending: self.items@.map_values(|item: QueueItem| item@),
        }
    }
}

impl RetryQueue {
    #[verifier::type_invariant]
    spec fn watched(self) -> bool {
        !self.thread_running ==> self.items@.len() == 0
    }

    /// An empty queue without a worker.
    pub fn new() -> (queue: Self)
        ensures
            queue@ == idle(),
    {
        let queue = RetryQueue { thread_running: false, items: VecDeque::new() };
        assert(queue@.pending =~= Seq::empty());
        queue
    }

    /// Whether a recovery worker is active.
    pub fn is_running(&self) -> (running: bool)
        ensures
            running == self@.running,
            attended(self@),
    {
        proof {
            use_type_invariant(self);
        }
        self.thread_running
    }

    /// The number of deliveries that wait.
    pub fn len(&self) -> (n: usize)
        ensures
            n == self@.pending.len(),
    {
        self.items.len()
    }

    /// Puts `item` last and raises the worker's flag in the same step.
    /// Returns whether the caller has to start the worker: that is so where
    /// the flag was down.
    pub fn enqueue(&mut self, item: QueueItem) -> (spawn: bool)
        ensures
            spawn == !old(self)@.running,
            final(self)@ == enqueued(old(self)@, item@),
    {
        let spawn = !self.thread_running;
        let mut items: VecDeque<QueueItem> = VecDeque::new();
        core::mem::swap(&mut items, &mut self.items);
        items.push_back(item);
        self.thread_running = true;
        self.items = items;
        assert(self@.pending =~= old(self)@.pending.push(item@));
        spawn
    }

    /// The worker's question for its next item. Hands out the oldest item
    /// and takes it off the queue; where none waits, lowers the worker's
    /// flag and returns `None`, on which the worker ends.
    pub fn take(&mut self) -> (item: Option<QueueItem>)
        ensures
            final(self)@ == taken(old(self)@),
            match item {
                Some(it) => old(self)@.pending.len() > 0 && it@ == old(self)@.pending[0],
                None => old(self)@.pending.len() == 0,
            },
    {
        proof {
            use_type_invariant(&*self);
        }
        let mut items: VecDeque<QueueItem> = VecDeque::new();
        core::mem::swap(&mut items, &mut self.items);
        let item = items.pop_front();
        if item.is_none() {
            self.thread_running = false;
        } else {
            self.items = items;
        }
        assert(self@.pending =~= taken(old(self)@).pending);
        item
    }
}

} // verus!
