//! One topic's log. A message gets the next offset when it is appended, the
//! first one the offset 1, and keeps it.

use vstd::prelude::*;

verus! {

/// A log as contracts see it.
pub struct LogState {
    /// The messages in the order of their offsets: the one at index `i` has
    /// the offset `i + 1`.
    pub messages: Seq<u64>,
    /// The last offset that was committed, 0 where none was.
    pub committed: u64,
}

/// The state of a log that nothing was appended to.
pub open spec fn empty_log() -> LogState {
    LogState { messages: Seq::empty(), committed: 0 }
}

/// The messages of a log, each with its offset in front.
pub open spec fn entries(messages: Seq<u64>) -> Seq<(u64, u64)> {
    Seq::new(messages.len(), |i: int| ((i + 1) as u64, messages[i]))
}

/// The test that an entry passes where its offset is at least `from_offset`.
pub open spec fn from_on(from_offset: u64) -> spec_fn((u64, u64)) -> bool {
    |entry: (u64, u64)| entry.0 >= from_offset
}

/// The listing of a log from `from_offset`: the entries whose offset is at
/// least `from_offset`, in the order of the log, up to `limit` of them.
pub open spec fn listed(messages: Seq<u64>, from_offset: u64, limit: usize) -> Seq<(u64, u64)> {
    let found = entries(messages).filter(from_on(from_offset));
    if found.len() <= limit {
        found
    } else {
        found.take(limit as int)
    }
}

/// The number of messages in front of the first one that a listing from
/// `from_offset` shows.
pub open spec fn skipped(messages: Seq<u64>, from_offset: u64) -> int {
    if from_offset == 0 {
        0
    } else if from_offset - 1 <= messages.len() {
        from_offset - 1
    } else {
        messages.len() as int
    }
}

/// The number of messages that a listing from `from_offset` shows when it
/// may show up to `limit`.
pub open spec fn shown(messages: Seq<u64>, from_offset: u64, limit: usize) -> int {
    if messages.len() - skipped(messages, from_offset) <= limit {
        messages.len() - skipped(messages, from_offset)
    } else {
        limit as int
    }
}

/// The entries from an offset on are what is left when those in front of
/// it are skipped.
pub proof fn lemma_entries_from(messages: Seq<u64>, from_offset: u64)
    requires
        messages.len() <= u64::MAX,
    ensures
        entries(messages).filter(from_on(from_offset)) == entries(messages).skip(
            skipped(messages, from_offset),
        ),
    decreases messages.len(),
{
    reveal(Seq::filter);
    let all = entries(messages);
    if messages.len() > 0 {
        lemma_entries_from(messages.drop_last(), from_offset);
        assert(all.drop_last() =~= entries(messages.drop_last()));
    }
    assert(all.filter(from_on(from_offset)) =~= all.skip(skipped(messages, from_offset)));
}

/// A listing by places: it shows `shown` entries, and the one at place `k`
/// is the message behind the `skipped` ones and `k` more, with its offset.
pub proof fn lemma_listed_by_place(messages: Seq<u64>, from_offset: u64, limit: usize)
    requires
        messages.len() <= u64::MAX,
    ensures
        listed(messages, from_offset, limit).len() == shown(messages, from_offset, limit),
        forall|k: int|
            0 <= k < shown(messages, from_offset, limit) ==> #[trigger] listed(
                messages,
                from_offset,
                limit,
            )[k] == (
                (skipped(messages, from_offset) + k + 1) as u64,
                messages[skipped(messages, from_offset) + k],
            ),
{
    lemma_entries_from(messages, from_offset);
}

/// The append-only log of one topic.
pub struct ReplicationLog {
    messages: Vec<u64>,
    committed_offset: u64,
}

impl View for ReplicationLog {
    type V = LogState;

    closed spec fn view(&self) -> LogState {
        LogState { messages: self.messages@, committed: self.committed_offset }
    }
}

impl Default for ReplicationLog {
    /// An empty log with the committed offset 0.
    fn default() -> (log: Self)
        ensures
            log@ == empty_log(),
    {
        ReplicationLog::new()
    }
}

impl ReplicationLog {
    /// An empty log with the committed offset 0.
    pub fn new() -> (log: Self)
        ensures
            log@ == empty_log(),
    {
        ReplicationLog { messages: Vec::new(), committed_offset: 0 }
    }

    /// Whether another message can get an offset.
    pub fn has_room(&self) -> (room: bool)
        ensures
            room == (self@.messages.len() < u64::MAX),
    {
        let n: usize = self.messages.len();
        (n as u64) < u64::MAX
    }

    /// Appends `message` and returns its offset, which is one more than the
    /// offset of the message before it, and 1 for the first.
    pub fn append(&mut self, message: u64) -> (offset: u64)
        requires
            old(self)@.messages.len() < u64::MAX,
        ensures
            offset == old(self)@.messages.len() + 1,
            final(self)@.messages == old(self)@.messages.push(message),
            final(self)@.committed == old(self)@.committed,
    {
        self.messages.push(message);
        let n: usize = self.messages.len();
        n as u64
    }

    /// Lists up to `limit` messages, each with its offset in front, starting
    /// at the first whose offset is at least `from_offset`.
    pub fn list(&self, from_offset: u64, limit: usize) -> (entries: Vec<(u64, u64)>)
        ensures
            entries@ == listed(self@.messages, from_offset, limit),
    {
        let len: usize = self.messages.len();
        proof {
            lemma_listed_by_place(self@.messages, from_offset, limit);
        }
        let start: usize = if from_offset == 0 {
            0
        } else if from_offset - 1 <= len as u64 {
            (from_offset - 1) as usize
        } else {
            len
        };
        let count: usize = if len - start <= limit {
            len - start
        } else {
            limit
        };
        let ghost want = listed(self@.messages, from_offset, limit);
        let mut entries: Vec<(u64, u64)> = Vec::new();
        let mut k: usize = 0;
        while k < count
            invariant
                k <= count,
                start + count <= len,
                len == self.messages@.len(),
                want.len() == count,
                forall|j: int|
                    0 <= j < count ==> #[trigger] want[j] == ((start + j + 1) as u64, self.messages@[start + j]),
                entries@.len() == k,
                forall|j: int| 0 <= j < k ==> entries@[j] == want[j],
            decreases count - k,
        {
            let offset: u64 = (start + k + 1) as u64;
            entries.push((offset, self.messages[start + k]));
            k += 1;
        }
        assert(entries@ =~= want);
        entries
    }

    /// The last committed offset.
    pub fn get_committed_offset(&self) -> (offset: u64)
        ensures
            offset == self@.committed,
    {
        self.committed_offset
    }

    /// Sets the last committed offset.
    pub fn set_committed_offset(&mut self, offset: u64)
        ensures
            final(self)@.committed == offset,
            final(self)@.messages == old(self)@.messages,
    {
        self.committed_offset = offset;
    }
}

} // verus!
