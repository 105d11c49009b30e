//! The candidates that wait to be looked at.

use vstd::prelude::*;
use crate::pubkey::Pubkey;
use crate::search::{is_leader, leader, leader_among, lemma_leader_among, precedes, Candidate};

verus! {

/// A partial route held by the search.
#[derive(Clone, Debug)]
pub struct PathNode {
    /// The asset the partial route ends at.
    pub token: Pubkey,
    /// The amount of that asset in hand.
    pub amount_out: u64,
    /// How many pools were crossed.
    pub hops: u8,
    /// Addresses of the pools crossed, in order.
    pub path: Vec<Pubkey>,
}

impl View for PathNode {
    type V = Candidate;

    open spec fn view(&self) -> Candidate {
        Candidate {
            token: self.token,
            amount_out: self.amount_out,
            hops: self.hops,
            path: self.path@,
        }
    }
}

impl PathNode {
    /// Whether this node is looked at before `other`: it holds more, or as
    /// much after fewer hops.
    pub fn precedes(&self, other: &PathNode) -> (r: bool)
        ensures
            r == precedes(self@, other@),
    {
        self.amount_out > other.amount_out || (self.amount_out == other.amount_out && self.hops
            < other.hops)
    }
}

/// The views of a list of nodes, position by position.
pub open spec fn candidates(nodes: Seq<PathNode>) -> Seq<Candidate> {
    Seq::new(nodes.len(), |i: int| nodes[i]@)
}

/// The nodes waiting to be looked at, in the order in which they entered.
/// The one that leaves next holds the most; among equal amounts it made the
/// fewest hops; among those it entered first.
pub struct Frontier {
    nodes: Vec<PathNode>,
}

impl View for Frontier {
    type V = Seq<Candidate>;

    closed spec fn view(&self) -> Seq<Candidate> {
        candidates(self.nodes@)
    }
}

impl Frontier {
    /// A frontier with nothing in it.
    pub fn new() -> (frontier: Frontier)
        ensures
            frontier@ == Seq::<Candidate>::empty(),
    {
        let frontier = Frontier { nodes: Vec::new() };
        assert(frontier@ =~= Seq::<Candidate>::empty());
        frontier
    }

    /// How many nodes wait.
    pub fn len(&self) -> (n: usize)
        ensures
            n == self@.len(),
    {
        self.nodes.len()
    }

    /// Whether no node waits.
    pub fn is_empty(&self) -> (empty: bool)
        ensures
            empty == (self@.len() == 0),
    {
        self.nodes.len() == 0
    }

    /// Lets `node` enter behind all that wait.
    pub fn push(&mut self, node: PathNode)
        ensures
            final(self)@ == old(self)@.push(node@),
    {
        self.nodes.push(node);
        assert(self@ =~= old(self)@.push(node@));
    }

    /// Takes out the node that leaves next, if any waits; the others keep
    /// their order.
    pub fn pop(&mut self) -> (next: Option<PathNode>)
        ensures
            match next {
                None => old(self)@.len() == 0 && final(self)@ == old(self)@,
                Some(node) => {
                    &&& old(self)@.len() > 0
                    &&& is_leader(old(self)@, old(self)@.len() as int, leader(old(self)@))
                    &&& node@ == old(self)@[leader(old(self)@)]
                    &&& final(self)@ == old(self)@.remove(leader(old(self)@))
                },
            },
    {
        if self.nodes.len() == 0 {
            return None;
        }
        let mut at: usize = 0;
        let mut i: usize = 1;
        while i < self.nodes.len()
            invariant
                1 <= i <= self.nodes.len(),
                at == leader_among(self@, i as int),
                0 <= at < i,
            decreases self.nodes.len() - i,
        {
            if self.nodes[i].precedes(&self.nodes[at]) {
                at = i;
            }
            i = i + 1;
        }
        proof {
            lemma_leader_among(self@, self@.len() as int);
        }
        let node = self.nodes.remove(at);
        assert(self@ =~= old(self)@.remove(at as int));
        Some(node)
    }
}

} // verus!
