//! The peers that a node forwards new values to.

use vstd::prelude::*;

verus! {

/// The peers that a value is forwarded to: every neighbour, in order, but
/// the peer that the value came from.
pub open spec fn fanout(neighbours: Seq<Seq<char>>, sender: Seq<char>) -> Seq<Seq<char>> {
    neighbours.filter(other_than(sender))
}

/// The test that a peer passes unless it is `sender`.
pub open spec fn other_than(sender: Seq<char>) -> spec_fn(Seq<char>) -> bool {
    |peer: Seq<char>| peer != sender
}

/// A forwarded value never goes back to the peer it came from.
pub proof fn lemma_fanout_excludes_sender(neighbours: Seq<Seq<char>>, sender: Seq<char>)
    ensures
        !fanout(neighbours, sender).contains(sender),
{
    let keep = other_than(sender);
    let out = neighbours.filter(keep);
    if out.contains(sender) {
        let i = choose|i: int| 0 <= i < out.len() && out[i] == sender;
        neighbours.lemma_filter_pred(keep, i);
    }
}

/// A forwarded value goes to neighbours only, and to each neighbour other
/// than the sender.
pub proof fn lemma_fanout_members(neighbours: Seq<Seq<char>>, sender: Seq<char>, peer: Seq<char>)
    ensures
        fanout(neighbours, sender).contains(peer) <==> neighbours.contains(peer) && peer != sender,
{
    let keep = other_than(sender);
    let out = neighbours.filter(keep);
    if out.contains(peer) {
        let i = choose|i: int| 0 <= i < out.len() && out[i] == peer;
        neighbours.lemma_filter_pred(keep, i);
        neighbours.lemma_filter_contains_rev(keep, peer);
    }
    if neighbours.contains(peer) && peer != sender {
        let i = choose|i: int| 0 <= i < neighbours.len() && neighbours[i] == peer;
        neighbours.lemma_filter_contains(keep, i);
    }
}

/// A copy of a list of peer names.
pub fn copy_names(names: &Vec<String>) -> (copy: Vec<String>)
    ensures
        copy.deep_view() == names.deep_view(),
{
    let mut copy: Vec<String> = Vec::new();
    let mut i: usize = 0;
    while i < names.len()
        invariant
            i <= names.len(),
            copy.len() == i,
            forall|j: int| 0 <= j < i ==> copy@[j]@ == names@[j]@,
        decreases names.len() - i,
    {
        copy.push(names[i].clone());
        i += 1;
    }
    assert(copy.deep_view() =~= names.deep_view());
    copy
}

/// The neighbour list of one node.
pub struct TopologyTable {
    peers: Vec<String>,
}

impl View for TopologyTable {
    type V = Seq<Seq<char>>;

    closed spec fn view(&self) -> Seq<Seq<char>> {
        self.peers.deep_view()
    }
}

impl TopologyTable {
    /// A table without neighbours.
    pub fn new() -> (table: Self)
        ensures
            table@ == Seq::<Seq<char>>::empty(),
    {
        let table = TopologyTable { peers: Vec::new() };
        assert(table.peers.deep_view() =~= Seq::<Seq<char>>::empty());
        table
    }

    /// Puts `peers` in the place of the whole list: no earlier neighbour
    /// stays unless `peers` names it.
    pub fn replace(&mut self, peers: Vec<String>)
        ensures
            final(self)@ == peers.deep_view(),
    {
        self.peers = peers;
    }

    /// A copy of the list as it stands.
    pub fn current(&self) -> (peers: Vec<String>)
        ensures
            peers.deep_view() == self@,
    {
        copy_names(&self.peers)
    }

    /// The neighbours that a value received from `sender` is forwarded to.
    pub fn targets(&self, sender: &String) -> (peers: Vec<String>)
        ensures
            peers.deep_view() == fanout(self@, sender@),
    {
        let mut out: Vec<String> = Vec::new();
        let mut i: usize = 0;
        proof {
            reveal(Seq::filter);
            assert(self@.take(0) =~= Seq::<Seq<char>>::empty());
            assert(out.deep_view() =~= Seq::<Seq<char>>::empty());
        }
        while i < self.peers.len()
            invariant
                i <= self.peers.len(),
                self@.len() == self.peers.len(),
                out.deep_view() == fanout(self@.take(i as int), sender@),
            decreases self.peers.len() - i,
        {
            let ghost before = out.deep_view();
            let peer = &self.peers[i];
            proof {
                reveal(Seq::filter);
                assert(self@.take(i + 1).drop_last() =~= self@.take(i as int));
                assert(self@.take(i + 1).last() == peer@);
            }
            if *peer != *sender {
                out.push(peer.clone());
                assert(out.deep_view() =~= before.push(peer@));
            }
            i += 1;
        }
        assert(self@.take(i as int) =~= self@);
        out
    }
}

} // verus!
