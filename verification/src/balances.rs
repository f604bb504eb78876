//! The tokens that the contract's own account holds.
use vstd::prelude::*;

use crate::bytes::copy_bytes;
use crate::bytes::bytes_eq;

verus! {

/// The amount of one token, at one nonce, that an account holds.
pub struct Holding {
    pub token: Vec<u8>,
    pub nonce: u64,
    pub amount: u128,
}

/// Whether `h` records the pair `(token, nonce)`.
pub open spec fn holds_pair(h: Holding, token: Seq<u8>, nonce: u64) -> bool {
    h.token@ == token && h.nonce == nonce
}

/// The amount that the last of the first `n` entries recording `(token, nonce)` gives,
/// or zero where none records it.
pub open spec fn lookup_upto(entries: Seq<Holding>, token: Seq<u8>, nonce: u64, n: int) -> nat
    decreases n,
{
    if n <= 0 {
        0
    } else if holds_pair(entries[n - 1], token, nonce) {
        entries[n - 1].amount as nat
    } else {
        lookup_upto(entries, token, nonce, n - 1)
    }
}

/// Two entries say the same of the pair `(token, nonce)`.
pub open spec fn agree_on(h1: Holding, h2: Holding, token: Seq<u8>, nonce: u64) -> bool {
    &&& holds_pair(h1, token, nonce) == holds_pair(h2, token, nonce)
    &&& holds_pair(h1, token, nonce) ==> h1.amount == h2.amount
}

/// Entries that say the same of a pair, position by position, give the same amount for it.
proof fn lemma_lookup_agree(e1: Seq<Holding>, e2: Seq<Holding>, token: Seq<u8>, nonce: u64, n: int)
    requires
        0 <= n <= e1.len(),
        n <= e2.len(),
        forall|i: int| 0 <= i < n ==> agree_on(#[trigger] e1[i], e2[i], token, nonce),
    ensures
        lookup_upto(e1, token, nonce, n) == lookup_upto(e2, token, nonce, n),
    decreases n,
{
    if n > 0 {
        assert(agree_on(e1[n - 1], e2[n - 1], token, nonce));
        lemma_lookup_agree(e1, e2, token, nonce, n - 1);
    }
}

/// Entries past `m` that do not record the pair do not change its amount.
proof fn lemma_lookup_skip(e: Seq<Holding>, token: Seq<u8>, nonce: u64, m: int, n: int)
    requires
        0 <= m <= n <= e.len(),
        forall|i: int| m <= i < n ==> !holds_pair(#[trigger] e[i], token, nonce),
    ensures
        lookup_upto(e, token, nonce, n) == lookup_upto(e, token, nonce, m),
    decreases n,
{
    if n > m {
        assert(!holds_pair(e[n - 1], token, nonce));
        lemma_lookup_skip(e, token, nonce, m, n - 1);
    }
}

/// The holdings of one account: an amount for every pair of token identifier and nonce,
/// zero for a pair that was never set.
pub struct Balances {
    entries: Vec<Holding>,
}

impl Balances {
    /// The amount held of `token` at `nonce`.
    pub closed spec fn amount_of(self, token: Seq<u8>, nonce: u64) -> nat {
        lookup_upto(self.entries@, token, nonce, self.entries@.len() as int)
    }

    /// An account that holds nothing.
    pub fn new() -> (r: Balances)
        ensures
            r@ == Map::new(|k: (Seq<u8>, u64)| true, |k: (Seq<u8>, u64)| 0nat),
    {
        let r = Balances { entries: Vec::new() };
        assert(r@ =~= Map::new(|k: (Seq<u8>, u64)| true, |k: (Seq<u8>, u64)| 0nat));
        r
    }

    /// The index of the last entry that records `(token, nonce)`, if any.
    fn find(&self, token: &Vec<u8>, nonce: u64) -> (r: Option<usize>)
        ensures
            match r {
                Some(j) => {
                    &&& j < self.entries@.len()
                    &&& holds_pair(self.entries@[j as int], token@, nonce)
                    &&& forall|i: int|
                        j < i < self.entries@.len() ==> !holds_pair(
                            #[trigger] self.entries@[i],
                            token@,
                            nonce,
                        )
                },
                None => forall|i: int|
                    0 <= i < self.entries@.len() ==> !holds_pair(
                        #[trigger] self.entries@[i],
                        token@,
                        nonce,
                    ),
            },
    {
        let mut i: usize = self.entries.len();
        while i > 0
            invariant
                i <= self.entries@.len(),
                forall|k: int|
                    i <= k < self.entries@.len() ==> !holds_pair(
                        #[trigger] self.entries@[k],
                        token@,
                        nonce,
                    ),
            decreases i,
        {
            i = i - 1;
            let h = &self.entries[i];
            if h.nonce == nonce && bytes_eq(&h.token, token) {
                return Some(i);
            }
        }
        None
    }

    /// The amount held of `token` at `nonce`.
    pub fn get(&self, token: &Vec<u8>, nonce: u64) -> (r: u128)
        ensures
            r as nat == self@[(token@, nonce)],
    {
        match self.find(token, nonce) {
            Some(j) => {
                proof {
                    lemma_lookup_skip(
                        self.entries@,
                        token@,
                        nonce,
                        j + 1,
                        self.entries@.len() as int,
                    );
                }
                self.entries[j].amount
            },
            None => {
                proof {
                    lemma_lookup_skip(self.entries@, token@, nonce, 0, self.entries@.len() as int);
                }
                0
            },
        }
    }

    /// Sets the amount held of `token` at `nonce`.
    pub fn set(&mut self, token: &Vec<u8>, nonce: u64, amount: u128)
        ensures
            final(self)@ == old(self)@.insert((token@, nonce), amount as nat),
    {
        let ghost before = self.entries@;
        let h = Holding { token: copy_bytes(token), nonce, amount };
        match self.find(token, nonce) {
            Some(j) => {
                self.entries.set(j, h);
                proof {
                    let after = self.entries@;
                    assert forall|k: (Seq<u8>, u64)| #![auto]
                        k != (token@, nonce) implies lookup_upto(
                        after,
                        k.0,
                        k.1,
                        after.len() as int,
                    ) == lookup_upto(before, k.0, k.1, before.len() as int) by {
                        assert forall|i: int| 0 <= i < after.len() implies agree_on(
                            #[trigger] after[i],
                            before[i],
                            k.0,
                            k.1,
                        ) by {}
                        lemma_lookup_agree(after, before, k.0, k.1, after.len() as int);
                    }
                    lemma_lookup_skip(after, token@, nonce, j + 1, after.len() as int);
                }
            },
            None => {
                self.entries.push(h);
                proof {
                    let after = self.entries@;
                    assert forall|k: (Seq<u8>, u64)| #![auto]
                        k != (token@, nonce) implies lookup_upto(
                        after,
                        k.0,
                        k.1,
                        after.len() as int,
                    ) == lookup_upto(before, k.0, k.1, before.len() as int) by {
                        assert forall|i: int| 0 <= i < before.len() implies agree_on(
                            #[trigger] after[i],
                            before[i],
                            k.0,
                            k.1,
                        ) by {}
                        lemma_lookup_agree(after, before, k.0, k.1, before.len() as int);
                    }
                }
            },
        }
        assert(self@ =~= old(self)@.insert((token@, nonce), amount as nat));
    }

    /// A copy of these holdings.
    pub fn snapshot(&self) -> (r: Balances)
        ensures
            r@ == self@,
    {
        let mut entries: Vec<Holding> = Vec::new();
        let n = self.entries.len();
        for i in 0..n
            invariant
                n == self.entries@.len(),
                entries@.len() == i,
                forall|k: int|
                    0 <= k < i ==> {
                        &&& (#[trigger] entries@[k]).token@ == self.entries@[k].token@
                        &&& entries@[k].nonce == self.entries@[k].nonce
                        &&& entries@[k].amount == self.entries@[k].amount
                    },
        {
            let h = &self.entries[i];
            entries.push(Holding { token: copy_bytes(&h.token), nonce: h.nonce, amount: h.amount });
        }
        let r = Balances { entries };
        proof {
            assert forall|k: (Seq<u8>, u64)| #![auto]
                r.amount_of(k.0, k.1) == self.amount_of(k.0, k.1) by {
                assert forall|i: int| 0 <= i < n implies agree_on(
                    #[trigger] r.entries@[i],
                    self.entries@[i],
                    k.0,
                    k.1,
                ) by {}
                lemma_lookup_agree(r.entries@, self.entries@, k.0, k.1, n as int);
            }
            assert(r@ =~= self@);
        }
        r
    }
}

impl View for Balances {
    type V = Map<(Seq<u8>, u64), nat>;

    open spec fn view(&self) -> Map<(Seq<u8>, u64), nat> {
        Map::new(|k: (Seq<u8>, u64)| true, |k: (Seq<u8>, u64)| self.amount_of(k.0, k.1))
    }
}

} // verus!
