//! The broadcast node as a state machine: a request and the node's state go
//! in, the reply and the deliveries to start come out.

use crate::broadcast::retry::{attended, enqueued, idle, settled, taken, DeliveryOutcome, QueueItem, QueueState, RetryQueue};
use crate::broadcast::store::{recorded, MessageStore};
use crate::broadcast::topology::{fanout, lemma_fanout_excludes_sender, TopologyTable};
use vstd::prelude::*;

verus! {

/// The time that one delivery attempt may take, in milliseconds.
pub const TIMEOUT_IN_MILLIS: u64 = 500;

/// A request as the node reads it.
#[derive(Debug, PartialEq, Eq)]
pub enum Request {
    /// A value to record and to pass on.
    Broadcast { message: u64 },
    /// A question for every value seen so far.
    Read,
    /// The cluster's layout: each node with its neighbours.
    Topology { topology: Vec<(String, Vec<String>)> },
    /// A request of any other type.
    Other,
}

/// What the node answers, and what it asks its caller to do.
#[derive(Debug, PartialEq, Eq)]
pub enum Reply {
    /// An acknowledgment of a broadcast. The caller starts one delivery of
    /// the value to each peer of `fanout` and does not wait for them.
    BroadcastOk { fanout: Vec<String> },
    /// The values seen so far.
    ReadOk { messages: Vec<u64> },
    /// An acknowledgment of a new neighbour list.
    TopologyOk,
    /// Nothing to do for this request: the default answer stands.
    Done,
}

/// Why a request was refused.
#[derive(Clone, Copy, Debug, PartialEq, Eq, Structural)]
pub enum ProcessError {
    /// The topology does not name this node.
    NodeNotInTopology,
}

/// The node as contracts see it.
pub struct NodeState {
    /// The values seen, oldest first.
    pub messages: Seq<u64>,
    /// The neighbours, by name.
    pub neighbours: Seq<Seq<char>>,
    /// The failed deliveries and the worker's flag.
    pub queue: QueueState,
}

/// The neighbours that `topology` gives to `node`: those of the first entry
/// under that name, if there is one.
pub open spec fn neighbours_of(
    topology: Seq<(Seq<char>, Seq<Seq<char>>)>,
    node: Seq<char>,
) -> Option<Seq<Seq<char>>>
    decreases topology.len(),
{
    if topology.len() == 0 {
        None
    } else if topology[0].0 == node {
        Some(topology[0].1)
    } else {
        neighbours_of(topology.drop_first(), node)
    }
}

/// Entries under other names in front of a topology do not change what it
/// gives to `node`.
pub proof fn lemma_neighbours_of_skip(
    topology: Seq<(Seq<char>, Seq<Seq<char>>)>,
    node: Seq<char>,
    n: int,
)
    requires
        0 <= n <= topology.len(),
        forall|j: int| 0 <= j < n ==> topology[j].0 != node,
    ensures
        neighbours_of(topology, node) == neighbours_of(topology.skip(n), node),
    decreases n,
{
    if n == 0 {
        assert(topology.skip(0) =~= topology);
    } else {
        lemma_neighbours_of_skip(topology, node, n - 1);
        assert(topology.skip(n - 1).drop_first() =~= topology.skip(n));
    }
}

/// The state of one broadcast node.
pub struct Handler {
    messages: MessageStore,
    neighbours: TopologyTable,
    queue: RetryQueue,
}

impl View for Handler {
    type V = NodeState;

    closed spec fn view(&self) -> NodeState {
        NodeState { messages: self.messages@, neighbours: self.neighbours@, queue: self.queue@ }
    }
}

impl Default for Handler {
    /// A node that has seen nothing, has no neighbours and owes no delivery.
    fn default() -> (handler: Self)
        ensures
            handler@.messages == Seq::<u64>::empty(),
            handler@.neighbours == Seq::<Seq<char>>::empty(),
            handler@.queue == idle(),
    {
        Handler::new()
    }
}

impl Handler {
    /// A node that has seen nothing, has no neighbours and owes no delivery.
    pub fn new() -> (handler: Self)
        ensures
            handler@.messages == Seq::<u64>::empty(),
            handler@.neighbours == Seq::<Seq<char>>::empty(),
            handler@.queue == idle(),
    {
        Handler {
            messages: MessageStore::new(),
            neighbours: TopologyTable::new(),
            queue: RetryQueue::new(),
        }
    }

    /// A copy of the values seen so far, oldest first, each once.
    pub fn get_messages(&self) -> (messages: Vec<u64>)
        ensures
            messages@ == self@.messages,
            messages@.no_duplicates(),
    {
        self.messages.snapshot()
    }

    /// Records `message`. Returns whether it was new to this node.
    pub fn add_message(&mut self, message: u64) -> (fresh: bool)
        ensures
            fresh == !old(self)@.messages.contains(message),
            final(self)@.messages == recorded(old(self)@.messages, message),
            final(self)@.neighbours == old(self)@.neighbours,
            final(self)@.queue == old(self)@.queue,
    {
        self.messages.record(message)
    }

    /// A copy of this node's neighbours.
    pub fn get_neighbours(&self) -> (neighbours: Vec<String>)
        ensures
            neighbours.deep_view() == self@.neighbours,
    {
        self.neighbours.current()
    }

    /// Puts `new_neighbours` in the place of this node's neighbours.
    pub fn replace_neighbours(&mut self, new_neighbours: Vec<String>)
        ensures
            final(self)@.neighbours == new_neighbours.deep_view(),
            final(self)@.messages == old(self)@.messages,
            final(self)@.queue == old(self)@.queue,
    {
        self.neighbours.replace(new_neighbours);
    }

    /// Puts a failed delivery of `message` to `to_node` last in the queue.
    /// Returns whether the caller has to start the recovery worker, which is
    /// so where none was active; one counts as active from this call on.
    pub fn add_message_to_queue(&mut self, to_node: String, message: u64) -> (spawn: bool)
        ensures
            spawn == !old(self)@.queue.running,
            final(self)@.queue == enqueued(old(self)@.queue, (to_node@, message)),
            final(self)@.messages == old(self)@.messages,
            final(self)@.neighbours == old(self)@.neighbours,
    {
        self.queue.enqueue(QueueItem { node: to_node, message })
    }

    /// Handles one request that reached the node `node_id` from `src`.
    ///
    /// A broadcast is recorded and acknowledged; where its value is new, the
    /// reply names the neighbours to forward it to, which are all but `src`,
    /// and where it is known already, none. A read is answered with the
    /// values seen. A topology replaces the neighbours by those that it
    /// gives to this node, and is refused where it does not name this node.
    /// Any other request changes nothing.
    pub fn process(&mut self, node_id: &String, src: &String, request: Request) -> (result: Result<Reply, ProcessError>)
        ensures
            final(self)@.queue == old(self)@.queue,
            match request {
                Request::Broadcast { message } => {
                    &&& final(self)@.messages == recorded(old(self)@.messages, message)
                    &&& final(self)@.neighbours == old(self)@.neighbours
                    &&& result matches Ok(Reply::BroadcastOk { fanout: peers })
                    &&& peers.deep_view() == (if old(self)@.messages.contains(message) {
                        Seq::<Seq<char>>::empty()
                    } else {
                        fanout(old(self)@.neighbours, src@)
                    })
                    &&& !peers.deep_view().contains(src@)
                },
                Request::Read => {
                    &&& final(self)@ == old(self)@
                    &&& result matches Ok(Reply::ReadOk { messages })
                    &&& messages@ == old(self)@.messages
                    &&& messages@.no_duplicates()
                },
                Request::Topology { topology } => match neighbours_of(topology.deep_view(), node_id@) {
                    Some(peers) => {
                        &&& result matches Ok(Reply::TopologyOk)
                        &&& final(self)@.neighbours == peers
                        &&& final(self)@.messages == old(self)@.messages
                    },
                    None => {
                        &&& result == Err::<Reply, ProcessError>(ProcessError::NodeNotInTopology)
                        &&& final(self)@ == old(self)@
                    },
                },
                Request::Other => {
                    &&& final(self)@ == old(self)@
                    &&& result matches Ok(Reply::Done)
                },
            },
    {
        match request {
            Request::Broadcast { message } => {
                let peers = if self.add_message(message) {
                    proof {
                        lemma_fanout_excludes_sender(self@.neighbours, src@);
                    }
                    self.neighbours.targets(src)
                } else {
                    let none: Vec<String> = Vec::new();
                    assert(none.deep_view() =~= Seq::<Seq<char>>::empty());
                    none
                };
                Ok(Reply::BroadcastOk { fanout: peers })
            },
            Request::Read => Ok(Reply::ReadOk { messages: self.get_messages() }),
            Request::Topology { topology } => {
                let mut topology = topology;
                let ghost entries = topology.deep_view();
                let mut i: usize = 0;
                while i < topology.len() && topology[i].0 != *node_id
                    invariant
                        i <= topology.len(),
                        entries == topology.deep_view(),
                        forall|j: int| 0 <= j < i ==> entries[j].0 != node_id@,
                    decreases topology.len() - i,
                {
                    i += 1;
                }
                proof {
                    lemma_neighbours_of_skip(entries, node_id@, i as int);
                    if i < topology.len() {
                        assert(entries.skip(i as int)[0] == entries[i as int]);
                    }
                }
                if i < topology.len() {
                    let entry = topology.remove(i);
                    self.replace_neighbours(entry.1);
                    Ok(Reply::TopologyOk)
                } else {
                    Err(ProcessError::NodeNotInTopology)
                }
            },
            Request::Other => Ok(Reply::Done),
        }
    }

    /// Whether a recovery worker is active. None is while nothing waits
    /// for one.
    pub fn is_worker_running(&self) -> (running: bool)
        ensures
            running == self@.queue.running,
            attended(self@.queue),
    {
        self.queue.is_running()
    }

    /// The number of failed deliveries that wait for another attempt.
    pub fn queue_len(&self) -> (n: usize)
        ensures
            n == self@.queue.pending.len(),
    {
        self.queue.len()
    }

    /// Takes note of how a delivery of `message` to `node` ended. A delivery
    /// that failed, for whatever reason, joins the queue; the result says
    /// whether the caller has to start the recovery worker.
    pub fn delivery_finished(&mut self, node: String, message: u64, outcome: DeliveryOutcome) -> (spawn: bool)
        ensures
            spawn == (outcome != DeliveryOutcome::Delivered && !old(self)@.queue.running),
            final(self)@.queue == settled(old(self)@.queue, (node@, message), outcome),
            final(self)@.messages == old(self)@.messages,
            final(self)@.neighbours == old(self)@.neighbours,
    {
        match outcome {
            DeliveryOutcome::Delivered => false,
            DeliveryOutcome::TimedOut | DeliveryOutcome::TransportError => {
                self.add_message_to_queue(node, message)
            },
        }
    }

    /// One turn of the recovery worker: the delivery to attempt next, which
    /// leaves the queue, or `None` where nothing waits. On `None` the worker
    /// counts as stopped, and its caller ends.
    pub fn next_retry(&mut self) -> (item: Option<QueueItem>)
        ensures
            final(self)@.queue == taken(old(self)@.queue),
            final(self)@.messages == old(self)@.messages,
            final(self)@.neighbours == old(self)@.neighbours,
            match item {
                Some(it) => old(self)@.queue.pending.len() > 0 && it@ == old(self)@.queue.pending[0],
                None => old(self)@.queue.pending.len() == 0,
            },
    {
        self.queue.take()
    }
}

} // verus!
