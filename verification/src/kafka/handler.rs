//! The log node as a state machine over its topics.

use crate::kafka::log::{empty_log, listed, LogState, ReplicationLog};
use vstd::prelude::*;

verus! {

/// The number of messages that one poll shows of a topic at most.
pub const POLL_ITEM_LIMIT: usize = 10;

/// A request as the node reads it.
#[derive(Debug, PartialEq, Eq)]
pub enum Request {
    /// A message for the log of the topic `key`.
    Send { key: String, msg: u64 },
    /// A question for the messages of some topics, each from an offset on.
    Poll { offsets: Vec<(String, u64)> },
    /// Offsets to commit, each for its topic.
    CommitOffsets { offsets: Vec<(String, u64)> },
    /// A question for the committed offsets of some topics.
    ListCommittedOffsets { keys: Vec<String> },
    /// A request of any other type.
    Other,
}

/// What the node answers.
#[derive(Debug, PartialEq, Eq)]
pub enum Reply {
    /// The offset that the message got.
    SendOk { offset: u64 },
    /// For each topic asked for, its messages with their offsets.
    PollOk { msgs: Vec<(String, Vec<(u64, u64)>)> },
    /// An acknowledgment of committed offsets.
    CommitOffsetsOk,
    /// For each topic asked for, its committed offset.
    ListCommittedOffsetsOk { offsets: Vec<(String, u64)> },
    /// Nothing to do for this request: the default answer stands.
    Done,
}

/// One topic with its log.
pub struct Topic {
    name: String,
    log: ReplicationLog,
}

/// The place of the topic `name` among `topics`: the index of the first
/// entry under that name, or the length where there is none.
pub open spec fn slot(topics: Seq<(Seq<char>, LogState)>, name: Seq<char>) -> int
    decreases topics.len(),
{
    if topics.len() == 0 {
        0
    } else if topics[0].0 == name {
        0
    } else {
        1 + slot(topics.drop_first(), name)
    }
}

/// The place of a topic is where its name first stands, and there alone.
pub proof fn lemma_slot_is(topics: Seq<(Seq<char>, LogState)>, name: Seq<char>, i: int)
    requires
        0 <= i <= topics.len(),
        forall|j: int| 0 <= j < i ==> topics[j].0 != name,
        i < topics.len() ==> topics[i].0 == name,
    ensures
        slot(topics, name) == i,
    decreases topics.len(),
{
    if i > 0 {
        lemma_slot_is(topics.drop_first(), name, i - 1);
    }
}

/// The topics after `name` was asked for: a topic that was missing stands
/// last, with an empty log.
pub open spec fn opened(topics: Seq<(Seq<char>, LogState)>, name: Seq<char>) -> Seq<(Seq<char>, LogState)> {
    if slot(topics, name) < topics.len() {
        topics
    } else {
        topics.push((name, empty_log()))
    }
}

/// The log of the topic `name`, which is empty where there is no such topic.
pub open spec fn log_of(topics: Seq<(Seq<char>, LogState)>, name: Seq<char>) -> LogState {
    if slot(topics, name) < topics.len() {
        topics[slot(topics, name)].1
    } else {
        empty_log()
    }
}

/// The topics after `log` took the place of the log of `name`.
pub open spec fn with_log(
    topics: Seq<(Seq<char>, LogState)>,
    name: Seq<char>,
    log: LogState,
) -> Seq<(Seq<char>, LogState)> {
    opened(topics, name).update(slot(topics, name), (name, log))
}

/// The topics after `message` was appended to the log of `name`.
pub open spec fn appended(
    topics: Seq<(Seq<char>, LogState)>,
    name: Seq<char>,
    message: u64,
) -> Seq<(Seq<char>, LogState)> {
    with_log(
        topics,
        name,
        LogState {
            messages: log_of(topics, name).messages.push(message),
            committed: log_of(topics, name).committed,
        },
    )
}

/// The topics after `offset` was committed for `name`.
pub open spec fn committed(
    topics: Seq<(Seq<char>, LogState)>,
    name: Seq<char>,
    offset: u64,
) -> Seq<(Seq<char>, LogState)> {
    with_log(
        topics,
        name,
        LogState { messages: log_of(topics, name).messages, committed: offset },
    )
}

/// The topics after each of `names` was asked for in turn.
pub open spec fn opened_all(topics: Seq<(Seq<char>, LogState)>, names: Seq<Seq<char>>) -> Seq<(Seq<char>, LogState)>
    decreases names.len(),
{
    if names.len() == 0 {
        topics
    } else {
        opened(opened_all(topics, names.drop_last()), names.last())
    }
}

/// The topics after each offset of `offsets` was committed for its topic,
/// in turn.
pub open spec fn committed_all(
    topics: Seq<(Seq<char>, LogState)>,
    offsets: Seq<(Seq<char>, u64)>,
) -> Seq<(Seq<char>, LogState)>
    decreases offsets.len(),
{
    if offsets.len() == 0 {
        topics
    } else {
        committed(committed_all(topics, offsets.drop_last()), offsets.last().0, offsets.last().1)
    }
}

/// The topic names of a list of offsets by topic.
pub open spec fn topics_of(offsets: Seq<(Seq<char>, u64)>) -> Seq<Seq<char>> {
    Seq::new(offsets.len(), |i: int| offsets[i].0)
}

/// Where a name stands once an entry was put behind the topics.
pub proof fn lemma_slot_push(
    topics: Seq<(Seq<char>, LogState)>,
    entry: (Seq<char>, LogState),
    name: Seq<char>,
)
    ensures
        0 <= slot(topics, name) <= topics.len(),
        slot(topics, name) < topics.len() ==> topics[slot(topics, name)].0 == name,
        slot(topics.push(entry), name) == if slot(topics, name) < topics.len() || entry.0 == name {
            slot(topics, name)
        } else {
            topics.len() as int + 1
        },
    decreases topics.len(),
{
    if topics.len() > 0 {
        lemma_slot_push(topics.drop_first(), entry, name);
        assert(topics.push(entry).drop_first() =~= topics.drop_first().push(entry));
        if topics[0].0 != name && slot(topics, name) < topics.len() {
            assert(topics[slot(topics, name)] == topics.drop_first()[slot(topics, name) - 1]);
        }
    } else {
        assert(topics.push(entry).drop_first().len() == 0);
        assert(slot(topics.push(entry).drop_first(), name) == 0);
        assert(topics.push(entry)[0] == entry);
    }
}

/// To ask for a topic changes no log: every topic has afterwards the log
/// that it had, a new one an empty log.
pub proof fn lemma_opened_keeps_logs(
    topics: Seq<(Seq<char>, LogState)>,
    asked: Seq<char>,
    name: Seq<char>,
)
    ensures
        log_of(opened(topics, asked), name) == log_of(topics, name),
{
    lemma_slot_push(topics, (asked, empty_log()), name);
}

/// To ask for several topics changes no log either.
pub proof fn lemma_opened_all_keeps_logs(
    topics: Seq<(Seq<char>, LogState)>,
    names: Seq<Seq<char>>,
    name: Seq<char>,
)
    ensures
        log_of(opened_all(topics, names), name) == log_of(topics, name),
    decreases names.len(),
{
    if names.len() > 0 {
        lemma_opened_all_keeps_logs(topics, names.drop_last(), name);
        lemma_opened_keeps_logs(opened_all(topics, names.drop_last()), names.last(), name);
    }
}

/// A log that was put in the place of a topic's log is that topic's log
/// afterwards, and the logs of the other topics are as they were.
pub proof fn lemma_with_log(
    topics: Seq<(Seq<char>, LogState)>,
    changed: Seq<char>,
    log: LogState,
    name: Seq<char>,
)
    ensures
        log_of(with_log(topics, changed, log), name) == if name == changed {
            log
        } else {
            log_of(topics, name)
        },
{
    lemma_slot_push(topics, (changed, empty_log()), changed);
    lemma_slot_push(topics, (changed, empty_log()), name);
    let before = opened(topics, changed);
    let after = with_log(topics, changed, log);
    lemma_slot_update(before, slot(topics, changed), log, name);
}

/// To put a topic's own log in its place is to ask for the topic.
pub proof fn lemma_with_own_log(topics: Seq<(Seq<char>, LogState)>, name: Seq<char>)
    ensures
        with_log(topics, name, log_of(topics, name)) == opened(topics, name),
{
    lemma_slot_push(topics, (name, empty_log()), name);
    assert(with_log(topics, name, log_of(topics, name)) =~= opened(topics, name));
}

/// No two topics have one name.
pub open spec fn distinct_topics(topics: Seq<(Seq<char>, LogState)>) -> bool {
    forall|i: int, j: int| 0 <= i < j < topics.len() ==> topics[i].0 != topics[j].0
}

/// Topics with different names keep different names whatever is asked for
/// and whichever log changes: a node never holds two logs for one topic.
pub proof fn lemma_topics_stay_distinct(
    topics: Seq<(Seq<char>, LogState)>,
    name: Seq<char>,
    log: LogState,
)
    requires
        distinct_topics(topics),
    ensures
        distinct_topics(opened(topics, name)),
        distinct_topics(with_log(topics, name, log)),
{
    lemma_slot_push(topics, (name, empty_log()), name);
    lemma_slot_absent(topics, name);
    let wider = opened(topics, name);
    assert forall|i: int, j: int| 0 <= i < j < wider.len() implies wider[i].0 != wider[j].0 by {
        if j < topics.len() {
            assert(topics[i].0 != topics[j].0);
        }
    }
    let changed = with_log(topics, name, log);
    assert forall|i: int, j: int| 0 <= i < j < changed.len() implies changed[i].0 != changed[j].0 by {
        assert(wider[i].0 != wider[j].0);
    }
}

/// A name that has no place among the topics is the name of none.
pub proof fn lemma_slot_absent(topics: Seq<(Seq<char>, LogState)>, name: Seq<char>)
    ensures
        slot(topics, name) >= topics.len() ==> forall|i: int|
            0 <= i < topics.len() ==> (#[trigger] topics[i]).0 != name,
    decreases topics.len(),
{
    if topics.len() > 0 {
        lemma_slot_absent(topics.drop_first(), name);
        assert forall|i: int| slot(topics, name) >= topics.len() && 0 <= i < topics.len() implies (
        #[trigger] topics[i]).0 != name by {
            if i > 0 {
                assert(topics[i] == topics.drop_first()[i - 1]);
            }
        }
    }
}

/// A new log under an entry's name moves no topic from its place.
pub proof fn lemma_slot_update(
    topics: Seq<(Seq<char>, LogState)>,
    i: int,
    log: LogState,
    name: Seq<char>,
)
    requires
        0 <= i < topics.len(),
    ensures
        slot(topics.update(i, (topics[i].0, log)), name) == slot(topics, name),
    decreases topics.len(),
{
    let after = topics.update(i, (topics[i].0, log));
    if i == 0 {
        assert(after.drop_first() =~= topics.drop_first());
    } else {
        lemma_slot_update(topics.drop_first(), i - 1, log, name);
        assert(after.drop_first() =~= topics.drop_first().update(
            i - 1,
            (topics.drop_first()[i - 1].0, log),
        ));
    }
}

/// The state of one log node.
pub struct Handler {
    topics: Vec<Topic>,
}

impl View for Handler {
    type V = Seq<(Seq<char>, LogState)>;

    closed spec fn view(&self) -> Seq<(Seq<char>, LogState)> {
        self.topics@.map_values(|t: Topic| (t.name@, t.log@))
    }
}

impl Default for Handler {
    /// A node without topics.
    fn default() -> (handler: Self)
        ensures
            handler@ == Seq::<(Seq<char>, LogState)>::empty(),
    {
        Handler::new()
    }
}

impl Handler {
    /// A node without topics.
    pub fn new() -> (handler: Self)
        ensures
            handler@ == Seq::<(Seq<char>, LogState)>::empty(),
    {
        let handler = Handler { topics: Vec::new() };
        assert(handler@ =~= Seq::empty());
        handler
    }

    /// The log of `topic`, which is created empty where the node has none
    /// under that name.
    pub fn get_or_create_log(&mut self, topic: String) -> (log: &mut ReplicationLog)
        ensures
            log@ == log_of(old(self)@, topic@),
            final(self)@ == with_log(old(self)@, topic@, final(log)@),
    {
        let mut i: usize = 0;
        while i < self.topics.len() && self.topics[i].name != topic
            invariant
                i <= self.topics.len(),
                forall|j: int| 0 <= j < i ==> self@[j].0 != topic@,
            decreases self.topics.len() - i,
        {
            i += 1;
        }
        proof {
            lemma_slot_is(self@, topic@, i as int);
        }
        if i == self.topics.len() {
            self.topics.push(Topic { name: topic, log: ReplicationLog::new() });
            assert(self@ =~= opened(old(self)@, topic@));
        }
        &mut self.topics[i].log
    }

    /// Whether the log of `topic` can take another message.
    pub fn has_room(&self, topic: &String) -> (room: bool)
        ensures
            room == (log_of(self@, topic@).messages.len() < u64::MAX),
    {
        let mut i: usize = 0;
        while i < self.topics.len() && self.topics[i].name != *topic
            invariant
                i <= self.topics.len(),
                forall|j: int| 0 <= j < i ==> self@[j].0 != topic@,
            decreases self.topics.len() - i,
        {
            i += 1;
        }
        proof {
            lemma_slot_is(self@, topic@, i as int);
        }
        if i < self.topics.len() {
            self.topics[i].log.has_room()
        } else {
            true
        }
    }

    /// Appends `msg` to the log of the topic `key` and returns its offset.
    pub fn send(&mut self, key: String, msg: u64) -> (offset: u64)
        requires
            log_of(old(self)@, key@).messages.len() < u64::MAX,
        ensures
            offset == log_of(old(self)@, key@).messages.len() + 1,
            final(self)@ == appended(old(self)@, key@, msg),
    {
        let log = self.get_or_create_log(key);
        log.append(msg)
    }

    /// For each topic of `offsets`, its messages from the offset given with
    /// it, up to `POLL_ITEM_LIMIT` of them. A topic that the node has not
    /// seen before is created, and shows nothing.
    pub fn poll(&mut self, offsets: Vec<(String, u64)>) -> (msgs: Vec<(String, Vec<(u64, u64)>)>)
        ensures
            final(self)@ == opened_all(old(self)@, topics_of(offsets.deep_view())),
            msgs@.len() == offsets@.len(),
            forall|i: int|
                0 <= i < msgs@.len() ==> (#[trigger] msgs@[i]).0@ == offsets@[i].0@ && msgs@[i].1@
                    == listed(
                    log_of(old(self)@, offsets@[i].0@).messages,
                    offsets@[i].1,
                    POLL_ITEM_LIMIT,
                ),
    {
        let ghost names = topics_of(offsets.deep_view());
        let mut msgs: Vec<(String, Vec<(u64, u64)>)> = Vec::new();
        let mut i: usize = 0;
        assert(names.take(0) =~= Seq::<Seq<char>>::empty());
        while i < offsets.len()
            invariant
                i <= offsets.len(),
                names == topics_of(offsets.deep_view()),
                self@ == opened_all(old(self)@, names.take(i as int)),
                msgs@.len() == i,
                forall|j: int|
                    0 <= j < i ==> (#[trigger] msgs@[j]).0@ == offsets@[j].0@ && msgs@[j].1@
                        == listed(
                        log_of(old(self)@, offsets@[j].0@).messages,
                        offsets@[j].1,
                        POLL_ITEM_LIMIT,
                    ),
            decreases offsets.len() - i,
        {
            let ghost before = self@;
            let topic = offsets[i].0.clone();
            let from_offset = offsets[i].1;
            proof {
                lemma_opened_all_keeps_logs(old(self)@, names.take(i as int), topic@);
                assert(names.take(i + 1).drop_last() =~= names.take(i as int));
                assert(names.take(i + 1).last() == topic@);
            }
            let log = self.get_or_create_log(offsets[i].0.clone());
            let entries = log.list(from_offset, POLL_ITEM_LIMIT);
            proof {
                lemma_with_own_log(before, topic@);
            }
            msgs.push((topic, entries));
            i += 1;
        }
        assert(names.take(i as int) =~= names);
        msgs
    }

    /// Commits each offset of `offsets` for its topic, in turn. A topic that
    /// the node has not seen before is created.
    pub fn commit_offsets(&mut self, offsets: Vec<(String, u64)>)
        ensures
            final(self)@ == committed_all(old(self)@, offsets.deep_view()),
    {
        let ghost all = offsets.deep_view();
        let mut i: usize = 0;
        assert(all.take(0) =~= Seq::<(Seq<char>, u64)>::empty());
        while i < offsets.len()
            invariant
                i <= offsets.len(),
                all == offsets.deep_view(),
                self@ == committed_all(old(self)@, all.take(i as int)),
            decreases offsets.len() - i,
        {
            proof {
                assert(all.take(i + 1).drop_last() =~= all.take(i as int));
                assert(all.take(i + 1).last() == (offsets@[i as int].0@, offsets@[i as int].1));
            }
            let log = self.get_or_create_log(offsets[i].0.clone());
            log.set_committed_offset(offsets[i].1);
            i += 1;
        }
        assert(all.take(i as int) =~= all);
    }

    /// For each topic of `keys`, its committed offset, which is 0 where
    /// none was committed. A topic that the node has not seen before is
    /// created.
    pub fn list_committed_offsets(&mut self, keys: Vec<String>) -> (offsets: Vec<(String, u64)>)
        ensures
            final(self)@ == opened_all(old(self)@, keys.deep_view()),
            offsets@.len() == keys@.len(),
            forall|i: int|
                0 <= i < offsets@.len() ==> (#[trigger] offsets@[i]).0@ == keys@[i]@ && offsets@[i].1
                    == log_of(old(self)@, keys@[i]@).committed,
    {
        let ghost names = keys.deep_view();
        let mut offsets: Vec<(String, u64)> = Vec::new();
        let mut i: usize = 0;
        assert(names.take(0) =~= Seq::<Seq<char>>::empty());
        while i < keys.len()
            invariant
                i <= keys.len(),
                names == keys.deep_view(),
                self@ == opened_all(old(self)@, names.take(i as int)),
                offsets@.len() == i,
                forall|j: int|
                    0 <= j < i ==> (#[trigger] offsets@[j]).0@ == keys@[j]@ && offsets@[j].1
                        == log_of(old(self)@, keys@[j]@).committed,
            decreases keys.len() - i,
        {
            let ghost before = self@;
            let topic = keys[i].clone();
            proof {
                lemma_opened_all_keeps_logs(old(self)@, names.take(i as int), topic@);
                assert(names.take(i + 1).drop_last() =~= names.take(i as int));
                assert(names.take(i + 1).last() == topic@);
            }
            let log = self.get_or_create_log(keys[i].clone());
            let offset = log.get_committed_offset();
            proof {
                lemma_with_own_log(before, topic@);
            }
            offsets.push((topic, offset));
            i += 1;
        }
        assert(names.take(i as int) =~= names);
        offsets
    }

    /// Handles one request.
    pub fn process(&mut self, request: Request) -> (reply: Reply)
        requires
            request matches Request::Send { key, .. } ==> log_of(old(self)@, key@).messages.len()
                < u64::MAX,
        ensures
            match request {
                Request::Send { key, msg } => {
                    &&& reply matches Reply::SendOk { offset }
                    &&& offset == log_of(old(self)@, key@).messages.len() + 1
                    &&& final(self)@ == appended(old(self)@, key@, msg)
                },
                Request::Poll { offsets } => {
                    &&& reply matches Reply::PollOk { msgs }
                    &&& final(self)@ == opened_all(old(self)@, topics_of(offsets.deep_view()))
                    &&& msgs@.len() == offsets@.len()
                    &&& forall|i: int|
                        0 <= i < msgs@.len() ==> (#[trigger] msgs@[i]).0@ == offsets@[i].0@
                            && msgs@[i].1@ == listed(
                            log_of(old(self)@, offsets@[i].0@).messages,
                            offsets@[i].1,
                            POLL_ITEM_LIMIT,
                        )
                },
                Request::CommitOffsets { offsets } => {
                    &&& reply matches Reply::CommitOffsetsOk
                    &&& final(self)@ == committed_all(old(self)@, offsets.deep_view())
                },
                Request::ListCommittedOffsets { keys } => {
                    &&& reply matches Reply::ListCommittedOffsetsOk { offsets }
                    &&& final(self)@ == opened_all(old(self)@, keys.deep_view())
                    &&& offsets@.len() == keys@.len()
                    &&& forall|i: int|
                        0 <= i < offsets@.len() ==> (#[trigger] offsets@[i]).0@ == keys@[i]@
                            && offsets@[i].1 == log_of(old(self)@, keys@[i]@).committed
                },
                Request::Other => {
                    &&& reply matches Reply::Done
                    &&& final(self)@ == old(self)@
                },
            },
    {
        match request {
            Request::Send { key, msg } => Reply::SendOk { offset: self.send(key, msg) },
            Request::Poll { offsets } => Reply::PollOk { msgs: self.poll(offsets) },
            Request::CommitOffsets { offsets } => {
                self.commit_offsets(offsets);
                Reply::CommitOffsetsOk
            },
            Request::ListCommittedOffsets { keys } => Reply::ListCommittedOffsetsOk {
                offsets: self.list_committed_offsets(keys),
            },
            Request::Other => Reply::Done,
        }
    }
}

} // verus!
