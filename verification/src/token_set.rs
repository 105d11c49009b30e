//! A set of addresses kept in a vector, in the order of their arrival.

use vstd::prelude::*;
use crate::pubkey::Pubkey;

verus! {

/// A finite set of addresses. No address is stored twice.
pub struct TokenSet {
    tokens: Vec<Pubkey>,
}

impl View for TokenSet {
    type V = Set<Pubkey>;

    closed spec fn view(&self) -> Set<Pubkey> {
        self.tokens@.to_set()
    }
}

impl TokenSet {
    /// No address is stored twice.
    pub closed spec fn wf(&self) -> bool {
        self.tokens@.no_duplicates()
    }

    /// The empty set.
    pub fn new() -> (set: TokenSet)
        ensures
            set.wf(),
            set@ == Set::<Pubkey>::empty(),
    {
        let set = TokenSet { tokens: Vec::new() };
        assert(set@ =~= Set::<Pubkey>::empty());
        set
    }

    /// How many addresses the set holds.
    pub fn len(&self) -> (n: usize)
        requires
            self.wf(),
        ensures
            n == self@.len(),
            self@.finite(),
    {
        proof {
            self.tokens@.unique_seq_to_set();
        }
        self.tokens.len()
    }

    /// Whether `token` is in the set.
    pub fn contains(&self, token: &Pubkey) -> (found: bool)
        ensures
            found == self@.contains(*token),
    {
        let mut i: usize = 0;
        while i < self.tokens.len()
            invariant
                i <= self.tokens.len(),
                forall|j: int| 0 <= j < i ==> self.tokens[j] != *token,
            decreases self.tokens.len() - i,
        {
            if self.tokens[i] == *token {
                return true;
            }
            i = i + 1;
        }
        false
    }

    /// Adds `token` to the set; `true` if it was not there before.
    pub fn insert(&mut self, token: Pubkey) -> (fresh: bool)
        requires
            old(self).wf(),
        ensures
            final(self).wf(),
            final(self)@ == old(self)@.insert(token),
            fresh == !old(self)@.contains(token),
    {
        if self.contains(&token) {
            assert(self@ =~= self@.insert(token));
            false
        } else {
            let ghost before = self.tokens@;
            self.tokens.push(token);
            assert(self.tokens@.to_set() =~= before.to_set().insert(token)) by {
                assert forall|t: Pubkey| self.tokens@.contains(t) implies before.contains(t) || t
                    == token by {
                    let i = choose|i: int| 0 <= i < self.tokens@.len() && self.tokens@[i] == t;
                    if i < before.len() {
                        assert(before[i] == t);
                    }
                }
                assert forall|t: Pubkey| before.contains(t) || t == token implies self.tokens@.contains(
                    t,
                ) by {
                    if before.contains(t) {
                        let i = choose|i: int| 0 <= i < before.len() && before[i] == t;
                        assert(self.tokens@[i] == t);
                    } else {
                        assert(self.tokens@[before.len() as int] == t);
                    }
                }
            }
            true
        }
    }
}

} // verus!
