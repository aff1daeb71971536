//! The values that a node has seen, each held once, in order of arrival.

use vstd::prelude::*;

verus! {

/// What a store holds after `value` has arrived at a store that held `seen`.
pub open spec fn recorded(seen: Seq<u64>, value: u64) -> Seq<u64> {
    if seen.contains(value) {
        seen
    } else {
        seen.push(value)
    }
}

/// What a store holds after each of `values` has arrived in turn.
pub open spec fn recorded_all(seen: Seq<u64>, values: Seq<u64>) -> Seq<u64>
    decreases values.len(),
{
    if values.len() == 0 {
        seen
    } else {
        recorded(recorded_all(seen, values.drop_last()), values.last())
    }
}

/// A store that holds each value once still does so after another has
/// arrived.
pub proof fn lemma_recorded_distinct(seen: Seq<u64>, value: u64)
    requires
        seen.no_duplicates(),
    ensures
        recorded(seen, value).no_duplicates(),
{
}

/// Recording is idempotent: once a value has been recorded, the store holds
/// it exactly once, and recording it again finds it there and changes
/// nothing.
pub proof fn lemma_record_idempotent(seen: Seq<u64>, value: u64)
    requires
        seen.no_duplicates(),
    ensures
        recorded(seen, value).contains(value),
        recorded(recorded(seen, value), value) == recorded(seen, value),
        recorded(seen, value).to_multiset().count(value) == 1,
{
    let once = recorded(seen, value);
    if !seen.contains(value) {
        assert(once.last() == value);
    }
    once.lemma_multiset_has_no_duplicates();
    once.to_multiset_ensures();
}

/// Nothing is ever forgotten: what a store held stays in it, in its place,
/// when another value arrives, and the new value is in it too.
pub proof fn lemma_recorded_keeps(seen: Seq<u64>, value: u64)
    ensures
        seen.is_prefix_of(recorded(seen, value)),
        recorded(seen, value).contains(value),
        forall|earlier: u64| seen.contains(earlier) ==> recorded(seen, value).contains(earlier),
{
    let next = recorded(seen, value);
    if !seen.contains(value) {
        assert(next.last() == value);
    }
    assert forall|earlier: u64| seen.contains(earlier) implies next.contains(earlier) by {
        let i = choose|i: int| 0 <= i < seen.len() && seen[i] == earlier;
        assert(next[i] == earlier);
    }
}

/// A read sees every value whose recording ended before it: after any run
/// of recordings the store holds what it held before and each value of the
/// run.
pub proof fn lemma_snapshot_holds_all_recorded(seen: Seq<u64>, values: Seq<u64>, v: u64)
    requires
        seen.contains(v) || values.contains(v),
    ensures
        recorded_all(seen, values).contains(v),
    decreases values.len(),
{
    if values.len() > 0 {
        let front = values.drop_last();
        lemma_recorded_keeps(recorded_all(seen, front), values.last());
        if v != values.last() {
            if values.contains(v) {
                let i = choose|i: int| 0 <= i < values.len() && values[i] == v;
                assert(front[i] == v);
            }
            lemma_snapshot_holds_all_recorded(seen, front, v);
        }
    }
}

/// The set of values that a node has seen.
pub struct MessageStore {
    values: Vec<u64>,
}

impl View for MessageStore {
    type V = Seq<u64>;

    closed spec fn view(&self) -> Seq<u64> {
        self.values@
    }
}

impl MessageStore {
    #[verifier::type_invariant]
    spec fn distinct(self) -> bool {
        self.values@.no_duplicates()
    }

    /// A store that has seen nothing.
    pub fn new() -> (store: Self)
        ensures
            store@ == Seq::<u64>::empty(),
    {
        MessageStore { values: Vec::new() }
    }

    /// Whether `value` has been seen.
    pub fn contains(&self, value: u64) -> (found: bool)
        ensures
            found == self@.contains(value),
    {
        let mut i: usize = 0;
        while i < self.values.len()
            invariant
                i <= self.values.len(),
                forall|j: int| 0 <= j < i ==> self.values@[j] != value,
            decreases self.values.len() - i,
        {
            if self.values[i] == value {
                return true;
            }
            i += 1;
        }
        false
    }

    /// Takes `value` in if it is new, and says whether it was.
    pub fn record(&mut self, value: u64) -> (fresh: bool)
        ensures
            fresh == !old(self)@.contains(value),
            final(self)@ == recorded(old(self)@, value),
            final(self)@.no_duplicates(),
    {
        proof {
            use_type_invariant(&*self);
        }
        if self.contains(value) {
            false
        } else {
            let mut values: Vec<u64> = Vec::new();
            core::mem::swap(&mut values, &mut self.values);
            values.push(value);
            self.values = values;
            true
        }
    }

    /// A copy of everything seen so far, oldest first.
    pub fn snapshot(&self) -> (values: Vec<u64>)
        ensures
            values@ == self@,
            values@.no_duplicates(),
    {
        proof {
            use_type_invariant(self);
        }
        self.values.clone()
    }
}

} // verus!
