use gossip_glomers::broadcast::handler::{Handler, ProcessError, Reply, Request, TIMEOUT_IN_MILLIS};
use gossip_glomers::broadcast::retry::{DeliveryOutcome, QueueItem, RetryQueue};
use gossip_glomers::broadcast::store::MessageStore;
use gossip_glomers::broadcast::topology::{copy_names, TopologyTable};

fn names(list: &[&str]) -> Vec<String> {
    list.iter().map(|s| s.to_string()).collect()
}

fn item(node: &str, message: u64) -> QueueItem {
    QueueItem { node: node.to_string(), message }
}

#[test]
fn record_twice_is_true_then_false() {
    let mut store = MessageStore::new();
    assert!(!store.contains(9));
    assert!(store.record(9));
    assert!(store.contains(9));
    assert!(!store.record(9));
    assert_eq!(store.snapshot(), vec![9]);
    assert_eq!(store.snapshot().iter().filter(|v| **v == 9).count(), 1);
}

#[test]
fn snapshot_keeps_arrival_order_without_repeats() {
    let mut store = MessageStore::new();
    assert_eq!(store.snapshot(), Vec::<u64>::new());
    for v in [3u64, 1, 3, 2, 1, u64::MAX, 0] {
        store.record(v);
    }
    assert_eq!(store.snapshot(), vec![3, 1, 2, u64::MAX, 0]);
}

#[test]
fn snapshot_is_a_copy() {
    let mut store = MessageStore::new();
    store.record(1);
    let before = store.snapshot();
    store.record(2);
    assert_eq!(before, vec![1]);
    assert_eq!(store.snapshot(), vec![1, 2]);
}

#[test]
fn read_sees_every_value_recorded_before_it() {
    let mut handler = Handler::new();
    let me = "n1".to_string();
    let client = "c1".to_string();
    let mut recorded: Vec<u64> = Vec::new();
    for v in 0..50u64 {
        let value: u64 = (v * 7) % 31;
        handler.add_message(value);
        recorded.push(value);
        let reply = handler.process(&me, &client, Request::Read);
        match reply {
            Ok(Reply::ReadOk { messages }) => {
                for r in &recorded {
                    assert!(messages.contains(r));
                }
            }
            other => panic!("unexpected reply {:?}", other),
        }
    }
}

#[test]
fn replace_is_total_not_additive() {
    let mut table = TopologyTable::new();
    assert_eq!(table.current(), Vec::<String>::new());
    table.replace(names(&["A", "B"]));
    assert_eq!(table.current(), names(&["A", "B"]));
    table.replace(names(&["C"]));
    assert_eq!(table.current(), names(&["C"]));
    assert_eq!(table.targets(&"x".to_string()), names(&["C"]));
}

#[test]
fn replaced_neighbours_get_no_further_fanout() {
    let mut handler = Handler::new();
    let me = "n0".to_string();
    let client = "c1".to_string();
    handler.replace_neighbours(names(&["A", "B"]));
    assert_eq!(handler.get_neighbours(), names(&["A", "B"]));
    handler.replace_neighbours(names(&["C"]));
    assert_eq!(handler.get_neighbours(), names(&["C"]));
    let reply = handler.process(&me, &client, Request::Broadcast { message: 1 });
    assert_eq!(reply, Ok(Reply::BroadcastOk { fanout: names(&["C"]) }));
}

#[test]
fn targets_leave_out_the_sender_and_keep_the_order() {
    let mut table = TopologyTable::new();
    table.replace(names(&["n1", "n2", "n3", "n2"]));
    assert_eq!(table.targets(&"n2".to_string()), names(&["n1", "n3"]));
    assert_eq!(table.targets(&"n1".to_string()), names(&["n2", "n3", "n2"]));
    assert_eq!(table.targets(&"c9".to_string()), names(&["n1", "n2", "n3", "n2"]));
    assert_eq!(copy_names(&names(&["a", "b"])), names(&["a", "b"]));
}

#[test]
fn broadcast_never_goes_back_to_the_sender() {
    let mut handler = Handler::new();
    let me = "n1".to_string();
    handler.replace_neighbours(names(&["n2", "n3", "n4"]));
    let reply = handler.process(&me, &"n3".to_string(), Request::Broadcast { message: 10 });
    assert_eq!(reply, Ok(Reply::BroadcastOk { fanout: names(&["n2", "n4"]) }));
    assert_eq!(handler.get_messages(), vec![10]);
}

#[test]
fn known_value_is_acknowledged_without_fanout() {
    let mut handler = Handler::new();
    let me = "n1".to_string();
    let client = "c1".to_string();
    handler.replace_neighbours(names(&["n2", "n3"]));
    let first = handler.process(&me, &client, Request::Broadcast { message: 5 });
    assert_eq!(first, Ok(Reply::BroadcastOk { fanout: names(&["n2", "n3"]) }));
    let again = handler.process(&me, &"n2".to_string(), Request::Broadcast { message: 5 });
    assert_eq!(again, Ok(Reply::BroadcastOk { fanout: Vec::new() }));
    assert_eq!(handler.get_messages(), vec![5]);
    assert_eq!(handler.queue_len(), 0);
}

#[test]
fn read_replies_with_the_snapshot() {
    let mut handler = Handler::default();
    let me = "n1".to_string();
    let client = "c1".to_string();
    assert_eq!(handler.process(&me, &client, Request::Read), Ok(Reply::ReadOk { messages: vec![] }));
    assert!(handler.add_message(4));
    assert!(handler.add_message(2));
    assert!(!handler.add_message(4));
    assert_eq!(handler.process(&me, &client, Request::Read), Ok(Reply::ReadOk { messages: vec![4, 2] }));
}

#[test]
fn topology_takes_this_nodes_neighbours() {
    let mut handler = Handler::new();
    let me = "n2".to_string();
    let client = "c1".to_string();
    let topology = vec![
        ("n1".to_string(), names(&["n2"])),
        ("n2".to_string(), names(&["n1", "n3"])),
        ("n3".to_string(), names(&["n2"])),
    ];
    assert_eq!(handler.process(&me, &client, Request::Topology { topology }), Ok(Reply::TopologyOk));
    assert_eq!(handler.get_neighbours(), names(&["n1", "n3"]));
}

#[test]
fn topology_without_this_node_is_refused() {
    let mut handler = Handler::new();
    let me = "n9".to_string();
    let client = "c1".to_string();
    handler.replace_neighbours(names(&["n1"]));
    let topology = vec![("n1".to_string(), names(&["n2"])), ("n2".to_string(), names(&["n1"]))];
    assert_eq!(
        handler.process(&me, &client, Request::Topology { topology }),
        Err(ProcessError::NodeNotInTopology)
    );
    assert_eq!(handler.get_neighbours(), names(&["n1"]));
    assert_eq!(
        handler.process(&me, &client, Request::Topology { topology: Vec::new() }),
        Err(ProcessError::NodeNotInTopology)
    );
}

#[test]
fn topology_with_an_empty_list_clears_the_neighbours() {
    let mut handler = Handler::new();
    let me = "n1".to_string();
    handler.replace_neighbours(names(&["n2"]));
    let topology = vec![("n1".to_string(), Vec::new())];
    assert_eq!(handler.process(&me, &me, Request::Topology { topology }), Ok(Reply::TopologyOk));
    assert_eq!(handler.get_neighbours(), Vec::<String>::new());
}

#[test]
fn other_requests_pass_through() {
    let mut handler = Handler::new();
    let me = "n1".to_string();
    handler.add_message(1);
    handler.replace_neighbours(names(&["n2"]));
    assert_eq!(handler.process(&me, &"c1".to_string(), Request::Other), Ok(Reply::Done));
    assert_eq!(handler.get_messages(), vec![1]);
    assert_eq!(handler.get_neighbours(), names(&["n2"]));
}

#[test]
fn timeout_is_half_a_second() {
    assert_eq!(TIMEOUT_IN_MILLIS, 500);
}

#[test]
fn enqueue_asks_for_one_worker_only() {
    let mut queue = RetryQueue::new();
    assert!(!queue.is_running());
    assert_eq!(queue.len(), 0);
    assert!(queue.enqueue(item("n2", 1)));
    assert!(queue.is_running());
    assert!(!queue.enqueue(item("n2", 1)));
    assert!(!queue.enqueue(item("n3", 2)));
    assert_eq!(queue.len(), 3);
}

#[test]
fn take_hands_out_the_oldest_and_stops_on_empty() {
    let mut queue = RetryQueue::new();
    queue.enqueue(item("n2", 1));
    queue.enqueue(item("n3", 2));
    assert_eq!(queue.take(), Some(item("n2", 1)));
    assert!(queue.is_running());
    assert_eq!(queue.take(), Some(item("n3", 2)));
    assert!(queue.is_running());
    assert_eq!(queue.take(), None);
    assert!(!queue.is_running());
    assert_eq!(queue.take(), None);
    assert!(!queue.is_running());
    // the next failure asks for a worker again
    assert!(queue.enqueue(item("n4", 3)));
}

#[test]
fn a_hundred_failures_start_one_worker() {
    let mut handler = Handler::new();
    let mut started: u32 = 0;
    for i in 0..100u64 {
        let outcome = if i % 2 == 0 { DeliveryOutcome::TimedOut } else { DeliveryOutcome::TransportError };
        if handler.delivery_finished(format!("n{}", i % 4), i, outcome) {
            started += 1;
        }
        assert!(started <= 1);
        assert!(handler.is_worker_running());
    }
    assert_eq!(started, 1);
    assert_eq!(handler.queue_len(), 100);
}

#[test]
fn delivered_leaves_no_trace() {
    let mut handler = Handler::new();
    assert!(!handler.delivery_finished("n2".to_string(), 1, DeliveryOutcome::Delivered));
    assert_eq!(handler.queue_len(), 0);
    assert!(!handler.is_worker_running());
    assert!(handler.add_message_to_queue("n2".to_string(), 1));
    assert!(!handler.add_message_to_queue("n2".to_string(), 1));
    assert_eq!(handler.queue_len(), 2);
}

#[test]
fn failed_retry_goes_to_the_back() {
    let mut handler = Handler::new();
    handler.delivery_finished("n2".to_string(), 1, DeliveryOutcome::TimedOut);
    handler.delivery_finished("n3".to_string(), 2, DeliveryOutcome::TransportError);
    let first = handler.next_retry().unwrap();
    assert_eq!(first, item("n2", 1));
    assert!(!handler.delivery_finished(first.node, first.message, DeliveryOutcome::TimedOut));
    assert_eq!(handler.next_retry(), Some(item("n3", 2)));
    assert_eq!(handler.next_retry(), Some(item("n2", 1)));
    assert_eq!(handler.next_retry(), None);
    assert!(!handler.is_worker_running());
}

#[test]
fn queue_drains_once_the_peer_answers() {
    let mut handler = Handler::new();
    for v in 0..5u64 {
        handler.delivery_finished("n2".to_string(), v, DeliveryOutcome::TimedOut);
    }
    // the peer stays down for one round of the worker
    for _ in 0..5u32 {
        let it = handler.next_retry().unwrap();
        handler.delivery_finished(it.node, it.message, DeliveryOutcome::TransportError);
    }
    assert_eq!(handler.queue_len(), 5);
    // then it answers: one turn for each item and one more
    let mut turns: u32 = 0;
    while let Some(it) = handler.next_retry() {
        assert!(!handler.delivery_finished(it.node, it.message, DeliveryOutcome::Delivered));
        turns += 1;
    }
    assert_eq!(turns, 5);
    assert_eq!(handler.queue_len(), 0);
    assert!(!handler.is_worker_running());
}

#[test]
fn queue_grows_while_the_peer_is_down() {
    let mut handler = Handler::new();
    for v in 0..1000u64 {
        handler.delivery_finished("n2".to_string(), v, DeliveryOutcome::TimedOut);
    }
    for _ in 0..3000u32 {
        let it = handler.next_retry().unwrap();
        handler.delivery_finished(it.node, it.message, DeliveryOutcome::TimedOut);
    }
    assert_eq!(handler.queue_len(), 1000);
    assert!(handler.is_worker_running());
}

struct Cluster {
    ids: Vec<String>,
    nodes: Vec<Handler>,
    attempts: Vec<u32>,
    in_flight: Vec<(usize, String, u64)>,
    workers: Vec<u32>,
}

impl Cluster {
    fn index(&self, id: &str) -> usize {
        self.ids.iter().position(|n| n == id).unwrap()
    }

    fn broadcast(&mut self, at: usize, from: &str, value: u64) {
        let me = self.ids[at].clone();
        let reply = self.nodes[at].process(&me, &from.to_string(), Request::Broadcast { message: value });
        match reply {
            Ok(Reply::BroadcastOk { fanout }) => {
                for peer in fanout {
                    assert_ne!(peer, from);
                    self.in_flight.push((at, peer, value));
                }
            }
            other => panic!("unexpected reply {:?}", other),
        }
    }

    // The transport fails the first two attempts to any peer, then succeeds.
    fn attempt(&mut self, from: usize, to: &str, value: u64) -> DeliveryOutcome {
        let target = self.index(to);
        self.attempts[target] += 1;
        if self.attempts[target] <= 2 {
            DeliveryOutcome::TimedOut
        } else {
            let sender = self.ids[from].clone();
            self.broadcast(target, &sender, value);
            DeliveryOutcome::Delivered
        }
    }

    fn settle(&mut self, from: usize, to: String, value: u64) {
        let outcome = self.attempt(from, &to, value);
        if self.nodes[from].delivery_finished(to, value, outcome) {
            self.workers[from] += 1;
        }
        assert!(self.workers[from] <= 1);
    }

    fn run(&mut self) {
        let mut rounds: u32 = 0;
        loop {
            let mut busy = false;
            while !self.in_flight.is_empty() {
                let (from, to, value) = self.in_flight.remove(0);
                self.settle(from, to, value);
                busy = true;
            }
            for n in 0..self.nodes.len() {
                if self.workers[n] == 1 {
                    busy = true;
                    match self.nodes[n].next_retry() {
                        Some(it) => self.settle(n, it.node, it.message),
                        None => self.workers[n] -= 1,
                    }
                }
            }
            if !busy {
                break;
            }
            rounds += 1;
            assert!(rounds < 1000);
        }
    }
}

#[test]
fn line_of_three_converges_over_a_failing_transport() {
    let ids = names(&["A", "B", "C"]);
    let mut cluster = Cluster {
        ids: ids.clone(),
        nodes: vec![Handler::new(), Handler::new(), Handler::new()],
        attempts: vec![0, 0, 0],
        in_flight: Vec::new(),
        workers: vec![0, 0, 0],
    };
    let topology = vec![
        ("A".to_string(), names(&["B"])),
        ("B".to_string(), names(&["A", "C"])),
        ("C".to_string(), names(&["B"])),
    ];
    for n in 0..3usize {
        let reply = cluster.nodes[n].process(&ids[n], &"c0".to_string(), Request::Topology { topology: topology.clone() });
        assert_eq!(reply, Ok(Reply::TopologyOk));
    }
    cluster.broadcast(0, "c1", 100);
    cluster.broadcast(2, "c2", 300);
    cluster.broadcast(1, "c3", 200);
    cluster.run();
    for n in 0..3usize {
        let mut seen = cluster.nodes[n].get_messages();
        seen.sort();
        assert_eq!(seen, vec![100, 200, 300]);
        assert_eq!(cluster.nodes[n].queue_len(), 0);
        assert!(!cluster.nodes[n].is_worker_running());
        assert_eq!(cluster.workers[n], 0);
    }
}
