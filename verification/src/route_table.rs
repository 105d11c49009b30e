//! The best known way to each asset, kept in a vector with one entry per asset.

use vstd::prelude::*;
use crate::pubkey::Pubkey;

verus! {

/// What is known of one asset: the most that reached it and after how many
/// hops.
#[derive(Clone, Copy, Debug)]
pub struct BestRoute {
    pub token: Pubkey,
    pub amount: u64,
    pub hops: u8,
}

/// The map that a list of entries stands for; a later entry for an asset
/// replaces an earlier one.
pub open spec fn table_of(entries: Seq<BestRoute>) -> Map<Pubkey, (u64, u8)>
    decreases entries.len(),
{
    if entries.len() == 0 {
        Map::empty()
    } else {
        table_of(entries.drop_last()).insert(
            entries.last().token,
            (entries.last().amount, entries.last().hops),
        )
    }
}

/// No two entries speak of the same asset.
pub open spec fn distinct_tokens(entries: Seq<BestRoute>) -> bool {
    forall|i: int, j: int|
        0 <= i < j < entries.len() ==> (#[trigger] entries[i]).token != (#[trigger] entries[j]).token
}

/// An asset without an entry is not in the map.
pub proof fn lemma_table_absent(entries: Seq<BestRoute>, token: Pubkey)
    requires
        forall|i: int| 0 <= i < entries.len() ==> (#[trigger] entries[i]).token != token,
    ensures
        !table_of(entries).contains_key(token),
    decreases entries.len(),
{
    if entries.len() > 0 {
        let front = entries.drop_last();
        assert forall|i: int| 0 <= i < front.len() implies (#[trigger] front[i]).token != token by {
            assert(front[i] == entries[i]);
        }
        lemma_table_absent(front, token);
        assert(entries.last() == entries[entries.len() - 1]);
    }
}

/// The map holds for each entry's asset what that entry says.
pub proof fn lemma_table_lookup(entries: Seq<BestRoute>, at: int)
    requires
        distinct_tokens(entries),
        0 <= at < entries.len(),
    ensures
        table_of(entries).contains_key(entries[at].token),
        table_of(entries)[entries[at].token] == (entries[at].amount, entries[at].hops),
    decreases entries.len(),
{
    let front = entries.drop_last();
    if at < entries.len() - 1 {
        assert(distinct_tokens(front)) by {
            assert forall|i: int, j: int| 0 <= i < j < front.len() implies (#[trigger] front[i]).token
                != (#[trigger] front[j]).token by {
                assert(front[i] == entries[i] && front[j] == entries[j]);
            }
        }
        lemma_table_lookup(front, at);
        assert(front[at] == entries[at]);
        assert(entries[at].token != entries[entries.len() - 1].token);
    }
}

/// Replacing the entry of an asset replaces what the map holds for it.
pub proof fn lemma_table_update(entries: Seq<BestRoute>, at: int, entry: BestRoute)
    requires
        distinct_tokens(entries),
        0 <= at < entries.len(),
        entry.token == entries[at].token,
    ensures
        distinct_tokens(entries.update(at, entry)),
        table_of(entries.update(at, entry)) == table_of(entries).insert(
            entry.token,
            (entry.amount, entry.hops),
        ),
    decreases entries.len(),
{
    let updated = entries.update(at, entry);
    let front = entries.drop_last();
    let last = entries[entries.len() - 1];
    assert(distinct_tokens(updated)) by {
        assert forall|i: int, j: int| 0 <= i < j < updated.len() implies (#[trigger] updated[i]).token
            != (#[trigger] updated[j]).token by {
            assert(updated[i].token == entries[i].token);
            assert(updated[j].token == entries[j].token);
        }
    }
    if at == entries.len() - 1 {
        assert(updated.drop_last() =~= front);
        assert(table_of(updated) =~= table_of(entries).insert(
            entry.token,
            (entry.amount, entry.hops),
        ));
    } else {
        assert(distinct_tokens(front)) by {
            assert forall|i: int, j: int| 0 <= i < j < front.len() implies (#[trigger] front[i]).token
                != (#[trigger] front[j]).token by {
                assert(front[i] == entries[i] && front[j] == entries[j]);
            }
        }
        assert(front[at] == entries[at]);
        lemma_table_update(front, at, entry);
        assert(updated.drop_last() =~= front.update(at, entry));
        assert(updated.last() == last);
        assert(entries[at].token != last.token);
        assert(table_of(updated) =~= table_of(entries).insert(
            entry.token,
            (entry.amount, entry.hops),
        ));
    }
}

/// For each asset reached so far, the largest amount that reached it and the
/// hop count that came with it.
pub struct RouteTable {
    entries: Vec<BestRoute>,
}

impl View for RouteTable {
    type V = Map<Pubkey, (u64, u8)>;

    closed spec fn view(&self) -> Map<Pubkey, (u64, u8)> {
        table_of(self.entries@)
    }
}

impl RouteTable {
    /// Every asset has at most one entry.
    pub closed spec fn wf(&self) -> bool {
        distinct_tokens(self.entries@)
    }

    /// A table that knows nothing.
    pub fn new() -> (table: RouteTable)
        ensures
            table.wf(),
            table@ == Map::<Pubkey, (u64, u8)>::empty(),
    {
        RouteTable { entries: Vec::new() }
    }

    /// Position of the entry for `token`, or the number of entries if there
    /// is none.
    fn position(&self, token: &Pubkey) -> (at: usize)
        ensures
            at <= self.entries@.len(),
            at < self.entries@.len() ==> self.entries@[at as int].token == *token,
            at == self.entries@.len() ==> forall|i: int|
                0 <= i < self.entries@.len() ==> (#[trigger] self.entries@[i]).token != *token,
    {
        let mut i: usize = 0;
        while i < self.entries.len()
            invariant
                i <= self.entries.len(),
                forall|j: int| 0 <= j < i ==> (#[trigger] self.entries@[j]).token != *token,
            decreases self.entries.len() - i,
        {
            if self.entries[i].token == *token {
                return i;
            }
            i = i + 1;
        }
        i
    }

    /// What is known of `token`: the amount and the hop count, if it was
    /// reached.
    pub fn get(&self, token: &Pubkey) -> (known: Option<(u64, u8)>)
        requires
            self.wf(),
        ensures
            known == (if self@.contains_key(*token) {
                Some(self@[*token])
            } else {
                None
            }),
    {
        let at = self.position(token);
        if at < self.entries.len() {
            proof {
                lemma_table_lookup(self.entries@, at as int);
            }
            Some((self.entries[at].amount, self.entries[at].hops))
        } else {
            proof {
                lemma_table_absent(self.entries@, *token);
            }
            None
        }
    }

    /// Records `amount` and `hops` as what is known of `token`, in place of
    /// anything known before.
    pub fn insert(&mut self, token: Pubkey, amount: u64, hops: u8)
        requires
            old(self).wf(),
        ensures
            final(self).wf(),
            final(self)@ == old(self)@.insert(token, (amount, hops)),
    {
        let entry = BestRoute { token, amount, hops };
        let at = self.position(&token);
        if at < self.entries.len() {
            proof {
                lemma_table_update(self.entries@, at as int, entry);
            }
            self.entries[at] = entry;
        } else {
            let ghost before = self.entries@;
            self.entries.push(entry);
            assert(self.entries@.drop_last() =~= before);
        }
    }
}

} // verus!
