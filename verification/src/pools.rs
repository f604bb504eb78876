//! The lists of output nonces that wait to be swapped, one list per input nonce.
use vstd::prelude::*;

use crate::bytes::copy_nonces;

verus! {

/// The output nonces that stand for one input nonce, in storage order.
pub struct NonceList {
    pub input_nonce: u64,
    pub nonces: Vec<u64>,
}

/// The list that the last of the first `n` entries keeps for `key`, or the empty list.
pub open spec fn pool_upto(entries: Seq<NonceList>, key: u64, n: int) -> Seq<u64>
    decreases n,
{
    if n <= 0 {
        Seq::empty()
    } else if entries[n - 1].input_nonce == key {
        entries[n - 1].nonces@
    } else {
        pool_upto(entries, key, n - 1)
    }
}

/// Two entries say the same of `key`.
pub open spec fn agree_on_key(a: NonceList, b: NonceList, key: u64) -> bool {
    &&& (a.input_nonce == key) == (b.input_nonce == key)
    &&& a.input_nonce == key ==> a.nonces@ == b.nonces@
}

proof fn lemma_pool_agree(e1: Seq<NonceList>, e2: Seq<NonceList>, key: u64, n: int)
    requires
        0 <= n <= e1.len(),
        n <= e2.len(),
        forall|i: int| 0 <= i < n ==> agree_on_key(#[trigger] e1[i], e2[i], key),
    ensures
        pool_upto(e1, key, n) == pool_upto(e2, key, n),
    decreases n,
{
    if n > 0 {
        assert(agree_on_key(e1[n - 1], e2[n - 1], key));
        lemma_pool_agree(e1, e2, key, n - 1);
    }
}

proof fn lemma_pool_skip(e: Seq<NonceList>, key: u64, m: int, n: int)
    requires
        0 <= m <= n <= e.len(),
        forall|i: int| m <= i < n ==> (#[trigger] e[i]).input_nonce != key,
    ensures
        pool_upto(e, key, n) == pool_upto(e, key, m),
    decreases n,
{
    if n > m {
        assert(e[n - 1].input_nonce != key);
        lemma_pool_skip(e, key, m, n - 1);
    }
}

/// A list of output nonces for every input nonce; the list of an input nonce that was
/// never set is empty.
pub struct NoncePools {
    entries: Vec<NonceList>,
}

impl NoncePools {
    /// The list kept for `key`.
    pub closed spec fn pool(self, key: u64) -> Seq<u64> {
        pool_upto(self.entries@, key, self.entries@.len() as int)
    }

    /// Every list is empty.
    pub fn new() -> (r: NoncePools)
        ensures
            r@ == Map::new(|k: u64| true, |k: u64| Seq::<u64>::empty()),
    {
        let r = NoncePools { entries: Vec::new() };
        assert(r@ =~= Map::new(|k: u64| true, |k: u64| Seq::<u64>::empty()));
        r
    }

    fn find(&self, key: u64) -> (r: Option<usize>)
        ensures
            match r {
                Some(j) => {
                    &&& j < self.entries@.len()
                    &&& self.entries@[j as int].input_nonce == key
                    &&& forall|i: int|
                        j < i < self.entries@.len() ==> (#[trigger] self.entries@[i]).input_nonce
                            != key
                },
                None => forall|i: int|
                    0 <= i < self.entries@.len() ==> (#[trigger] self.entries@[i]).input_nonce
                        != key,
            },
    {
        let mut i: usize = self.entries.len();
        while i > 0
            invariant
                i <= self.entries@.len(),
                forall|k: int|
                    i <= k < self.entries@.len() ==> (#[trigger] self.entries@[k]).input_nonce
                        != key,
            decreases i,
        {
            i = i - 1;
            if self.entries[i].input_nonce == key {
                return Some(i);
            }
        }
        None
    }

    /// A copy of the list kept for `key`.
    pub fn get(&self, key: u64) -> (r: Vec<u64>)
        ensures
            r@ == self@[key],
    {
        match self.find(key) {
            Some(j) => {
                proof {
                    lemma_pool_skip(self.entries@, key, j + 1, self.entries@.len() as int);
                }
                copy_nonces(&self.entries[j].nonces)
            },
            None => {
                proof {
                    lemma_pool_skip(self.entries@, key, 0, self.entries@.len() as int);
                }
                Vec::new()
            },
        }
    }

    /// The length of the list kept for `key`.
    pub fn len_of(&self, key: u64) -> (r: usize)
        ensures
            r == self@[key].len(),
    {
        match self.find(key) {
            Some(j) => {
                proof {
                    lemma_pool_skip(self.entries@, key, j + 1, self.entries@.len() as int);
                }
                self.entries[j].nonces.len()
            },
            None => {
                proof {
                    lemma_pool_skip(self.entries@, key, 0, self.entries@.len() as int);
                }
                0
            },
        }
    }

    /// Replaces the list kept for `key`.
    pub fn set(&mut self, key: u64, nonces: Vec<u64>)
        ensures
            final(self)@ == old(self)@.insert(key, nonces@),
    {
        let ghost before = self.entries@;
        let ghost list = nonces@;
        let e = NonceList { input_nonce: key, nonces };
        match self.find(key) {
            Some(j) => {
                self.entries.set(j, e);
                proof {
                    let after = self.entries@;
                    assert forall|k: u64| k != key implies pool_upto(
                        after,
                        k,
                        after.len() as int,
                    ) == pool_upto(before, k, before.len() as int) by {
                        assert forall|i: int| 0 <= i < after.len() implies agree_on_key(
                            #[trigger] after[i],
                            before[i],
                            k,
                        ) by {}
                        lemma_pool_agree(after, before, k, after.len() as int);
                    }
                    lemma_pool_skip(after, key, j + 1, after.len() as int);
                }
            },
            None => {
                self.entries.push(e);
                proof {
                    let after = self.entries@;
                    assert forall|k: u64| k != key implies pool_upto(
                        after,
                        k,
                        after.len() as int,
                    ) == pool_upto(before, k, before.len() as int) by {
                        assert forall|i: int| 0 <= i < before.len() implies agree_on_key(
                            #[trigger] after[i],
                            before[i],
                            k,
                        ) by {}
                        lemma_pool_agree(after, before, k, before.len() as int);
                    }
                }
            },
        }
        assert(self@ =~= old(self)@.insert(key, list));
    }

    /// A copy of every list.
    pub fn snapshot(&self) -> (r: NoncePools)
        ensures
            r@ == self@,
    {
        let mut entries: Vec<NonceList> = Vec::new();
        let n = self.entries.len();
        for i in 0..n
            invariant
                n == self.entries@.len(),
                entries@.len() == i,
                forall|k: int|
                    0 <= k < i ==> {
                        &&& (#[trigger] entries@[k]).input_nonce == self.entries@[k].input_nonce
                        &&& entries@[k].nonces@ == self.entries@[k].nonces@
                    },
        {
            let e = &self.entries[i];
            entries.push(NonceList { input_nonce: e.input_nonce, nonces: copy_nonces(&e.nonces) });
        }
        let r = NoncePools { entries };
        proof {
            assert forall|k: u64| r.pool(k) == self.pool(k) by {
                assert forall|i: int| 0 <= i < n implies agree_on_key(
                    #[trigger] r.entries@[i],
                    self.entries@[i],
                    k,
                ) by {}
                lemma_pool_agree(r.entries@, self.entries@, k, n as int);
            }
            assert(r@ =~= self@);
        }
        r
    }
}

impl View for NoncePools {
    type V = Map<u64, Seq<u64>>;

    open spec fn view(&self) -> Map<u64, Seq<u64>> {
        Map::new(|k: u64| true, |k: u64| self.pool(k))
    }
}

} // verus!
