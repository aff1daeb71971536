//! The id node: it hands out the numbers 0, 1, 2 and so on, each once.

use vstd::prelude::*;

verus! {

/// What the node answers.
#[derive(Clone, Copy, Debug, PartialEq, Eq, Structural)]
pub enum Reply {
    /// A new id.
    GenerateOk { id: u64 },
    /// Nothing to do for this request: the default answer stands.
    Done,
}

/// The id that follows `id`. After the largest comes 0 again.
pub open spec fn following(id: u64) -> u64 {
    if id == u64::MAX {
        0
    } else {
        (id + 1) as u64
    }
}

/// The id that a node hands out after it has handed out `n` ids from
/// `start` on.
pub open spec fn id_after(start: u64, n: nat) -> u64
    decreases n,
{
    if n == 0 {
        start
    } else {
        following(id_after(start, (n - 1) as nat))
    }
}

/// No two ids are followed by the same id.
pub proof fn lemma_following_is_injective(a: u64, b: u64)
    requires
        following(a) == following(b),
    ensures
        a == b,
{
}

/// A node that starts at 0 hands out the numbers in order: its id number
/// `n`, counted from 0, is `n`. So no id comes twice among the first 2^64.
pub proof fn lemma_ids_count_up(n: nat)
    requires
        n <= u64::MAX,
    ensures
        id_after(0, n) == n,
    decreases n,
{
    if n > 0 {
        lemma_ids_count_up((n - 1) as nat);
    }
}

/// The state of one id node.
pub struct Handler {
    counter: u64,
}

impl View for Handler {
    type V = u64;

    /// The id that the node hands out next.
    closed spec fn view(&self) -> u64 {
        self.counter
    }
}

impl Default for Handler {
    /// A node whose first id is 0.
    fn default() -> (handler: Self)
        ensures
            handler@ == 0,
    {
        Handler::new()
    }
}

impl Handler {
    /// A node whose first id is 0.
    pub fn new() -> (handler: Self)
        ensures
            handler@ == 0,
    {
        Handler { counter: 0 }
    }

    /// Hands out the next id.
    pub fn generate(&mut self) -> (id: u64)
        ensures
            id == old(self)@,
            final(self)@ == following(old(self)@),
    {
        let id = self.counter;
        self.counter = if id == u64::MAX {
            0
        } else {
            id + 1
        };
        id
    }

    /// Handles one request, of which only its type matters: a request of
    /// the type `generate` gets a new id, any other changes nothing.
    pub fn process(&mut self, request_type: &str) -> (reply: Reply)
        ensures
            reply == (if request_type@ == "generate"@ {
                Reply::GenerateOk { id: old(self)@ }
            } else {
                Reply::Done
            }),
            final(self)@ == (if request_type@ == "generate"@ {
                following(old(self)@)
            } else {
                old(self)@
            }),
    {
        if request_type.to_owned() == "generate".to_owned() {
            Reply::GenerateOk { id: self.generate() }
        } else {
            Reply::Done
        }
    }
}

} // verus!
