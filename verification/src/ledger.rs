//! A minimal reserved-balance ledger: each account holds a free and a
//! reserved amount, and deposits move between the two through `reserve` and
//! `release`.

use vstd::prelude::*;

verus! {

/// One account: an identifier and its two balances.
#[derive(Clone, Copy, Debug)]
pub struct Account {
    pub id: u64,
    pub free: u128,
    pub reserved: u128,
}

/// The balance book. Account identifiers are unique and each account's two
/// balances sum within the balance type.
pub struct Ledger {
    accounts: Vec<Account>,
}

impl Ledger {
    /// Well-formedness: identifiers unique, balance sums in range.
    pub closed spec fn wf(self) -> bool {
        &&& forall|i: int, j: int|
            0 <= i < j < self.accounts@.len() ==> #[trigger] self.accounts@[i].id
                != #[trigger] self.accounts@[j].id
        &&& forall|k: int|
            0 <= k < self.accounts@.len() ==> (#[trigger] self.accounts@[k]).free
                + self.accounts@[k].reserved <= u128::MAX
    }

    /// Whether an account with this identifier exists.
    pub closed spec fn has_acct(self, id: u64) -> bool {
        exists|k: int| 0 <= k < self.accounts@.len() && #[trigger] self.accounts@[k].id == id
    }

    spec fn idx_of(self, id: u64) -> int {
        choose|k: int| 0 <= k < self.accounts@.len() && #[trigger] self.accounts@[k].id == id
    }

    /// The free balance of an account; zero when the account is absent.
    pub closed spec fn free_of(self, id: u64) -> u128 {
        if self.has_acct(id) {
            self.accounts@[self.idx_of(id)].free
        } else {
            0
        }
    }

    /// The reserved balance of an account; zero when the account is absent.
    pub closed spec fn reserved_of(self, id: u64) -> u128 {
        if self.has_acct(id) {
            self.accounts@[self.idx_of(id)].reserved
        } else {
            0
        }
    }

    /// An account sighted at a concrete index is the one the accessors
    /// speak of.
    proof fn lemma_at_index(self, k: int)
        requires
            self.wf(),
            0 <= k < self.accounts@.len(),
        ensures
            self.has_acct(self.accounts@[k].id),
            self.idx_of(self.accounts@[k].id) == k,
            self.free_of(self.accounts@[k].id) == self.accounts@[k].free,
            self.reserved_of(self.accounts@[k].id) == self.accounts@[k].reserved,
    {
        let id = self.accounts@[k].id;
        assert(self.has_acct(id));
        let j = self.idx_of(id);
        assert(0 <= j < self.accounts@.len() && self.accounts@[j].id == id);
        if j != k {
            if j < k {
                assert(self.accounts@[j].id != self.accounts@[k].id);
            } else {
                assert(self.accounts@[k].id != self.accounts@[j].id);
            }
        }
    }

    /// Replacing the balances of one account leaves every other account,
    /// and the set of accounts, untouched.
    proof fn lemma_update_frame(pre: Ledger, post: Ledger, k: int)
        requires
            pre.wf(),
            0 <= k < pre.accounts@.len(),
            post.accounts@.len() == pre.accounts@.len(),
            post.accounts@[k].id == pre.accounts@[k].id,
            post.accounts@[k].free + post.accounts@[k].reserved <= u128::MAX,
            forall|j: int|
                0 <= j < pre.accounts@.len() && j != k ==> #[trigger] post.accounts@[j]
                    == pre.accounts@[j],
        ensures
            post.wf(),
            forall|x: u64| #[trigger] post.has_acct(x) == pre.has_acct(x),
            forall|x: u64|
                x != pre.accounts@[k].id ==> #[trigger] post.free_of(x) == pre.free_of(x)
                    && #[trigger] post.reserved_of(x) == pre.reserved_of(x),
            post.free_of(pre.accounts@[k].id) == post.accounts@[k].free,
            post.reserved_of(pre.accounts@[k].id) == post.accounts@[k].reserved,
    {
        assert(forall|j: int|
            0 <= j < post.accounts@.len() ==> (#[trigger] post.accounts@[j]).id
                == pre.accounts@[j].id);
        assert(post.wf());
        assert forall|x: u64| #[trigger] post.has_acct(x) == pre.has_acct(x) by {
            if pre.has_acct(x) {
                let j = pre.idx_of(x);
                assert(post.accounts@[j].id == x);
                assert(post.has_acct(x));
            }
            if post.has_acct(x) {
                let j = post.idx_of(x);
                assert(pre.accounts@[j].id == x);
                assert(pre.has_acct(x));
            }
        }
        assert forall|x: u64|
            x != pre.accounts@[k].id implies #[trigger] post.free_of(x) == pre.free_of(x)
            && #[trigger] post.reserved_of(x) == pre.reserved_of(x) by {
            if pre.has_acct(x) {
                let j = pre.idx_of(x);
                assert(j != k);
                assert(post.accounts@[j] == pre.accounts@[j]);
                post.lemma_at_index(j);
                pre.lemma_at_index(j);
            }
        }
        post.lemma_at_index(k);
        pre.lemma_at_index(k);
    }

    /// A fresh, empty ledger.
    pub fn new() -> (l: Ledger)
        ensures
            l.wf(),
            forall|x: u64| !#[trigger] l.has_acct(x),
    {
        Ledger { accounts: Vec::new() }
    }

    fn find(&self, id: u64) -> (r: Option<usize>)
        requires
            self.wf(),
        ensures
            match r {
                Some(k) => k < self.accounts@.len() && self.accounts@[k as int].id == id,
                None => !self.has_acct(id),
            },
    {
        let n = self.accounts.len();
        let mut k: usize = 0;
        while k < n
            invariant
                n == self.accounts@.len(),
                k <= n,
                forall|j: int| 0 <= j < k ==> #[trigger] self.accounts@[j].id != id,
            decreases n - k,
        {
            if self.accounts[k].id == id {
                return Some(k);
            }
            k += 1;
        }
        None
    }

    /// Whether this identifier names an account: executable counterpart of
    /// [`Ledger::has_acct`].
    pub fn contains(&self, id: u64) -> (b: bool)
        requires
            self.wf(),
        ensures
            b == self.has_acct(id),
    {
        let r = self.find(id);
        proof {
            if r is Some {
                self.lemma_at_index(r->0 as int);
            }
        }
        r.is_some()
    }

    /// Reads [`Ledger::free_of`].
    pub fn free_balance(&self, id: u64) -> (b: u128)
        requires
            self.wf(),
        ensures
            b == self.free_of(id),
    {
        match self.find(id) {
            Some(k) => {
                proof {
                    self.lemma_at_index(k as int);
                }
                self.accounts[k].free
            },
            None => 0,
        }
    }

    /// Reads [`Ledger::reserved_of`].
    pub fn reserved_balance(&self, id: u64) -> (b: u128)
        requires
            self.wf(),
        ensures
            b == self.reserved_of(id),
    {
        match self.find(id) {
            Some(k) => {
                proof {
                    self.lemma_at_index(k as int);
                }
                self.accounts[k].reserved
            },
            None => 0,
        }
    }

    /// Opens a new account holding `free`, nothing reserved. Refused when
    /// the identifier is taken.
    pub fn open_account(&mut self, id: u64, free: u128) -> (ok: bool)
        requires
            old(self).wf(),
        ensures
            final(self).wf(),
            ok == !old(self).has_acct(id),
            !ok ==> *final(self) == *old(self),
            ok ==> final(self).has_acct(id) && final(self).free_of(id) == free
                && final(self).reserved_of(id) == 0,
            forall|x: u64| x != id ==> (#[trigger] final(self).has_acct(x)) == old(self).has_acct(x),
            forall|x: u64| x != id ==> (#[trigger] final(self).free_of(x)) == old(self).free_of(x),
            forall|x: u64|
                x != id ==> (#[trigger] final(self).reserved_of(x)) == old(self).reserved_of(x),
    {
        if let Some(k) = self.find(id) {
            proof {
                self.lemma_at_index(k as int);
            }
            return false;
        }
        let ghost pre = *self;
        self.accounts.push(Account { id, free, reserved: 0 });
        proof {
            let n = pre.accounts@.len() as int;
            assert(self.accounts@ == pre.accounts@.push(Account { id, free, reserved: 0 }));
            assert(forall|j: int| 0 <= j < n ==> self.accounts@[j] == pre.accounts@[j]);
            assert(self.wf());
            self.lemma_at_index(n);
            assert forall|x: u64|
                x != id implies #[trigger] self.has_acct(x) == pre.has_acct(x) by {
                if pre.has_acct(x) {
                    let j = pre.idx_of(x);
                    assert(self.accounts@[j].id == x);
                }
                if self.has_acct(x) {
                    let j = self.idx_of(x);
                    assert(j != n);
                    assert(pre.accounts@[j].id == x);
                }
            }
            assert forall|x: u64|
                x != id implies #[trigger] self.free_of(x) == pre.free_of(x)
                && #[trigger] self.reserved_of(x) == pre.reserved_of(x) by {
                if pre.has_acct(x) {
                    let j = pre.idx_of(x);
                    pre.lemma_at_index(j);
                    self.lemma_at_index(j);
                }
            }
        }
        true
    }

    /// Moves `amount` of the account's free balance into reserve. Fails,
    /// changing nothing, when the account is absent or its free balance is
    /// short.
    pub fn reserve(&mut self, id: u64, amount: u128) -> (ok: bool)
        requires
            old(self).wf(),
        ensures
            final(self).wf(),
            ok == (old(self).has_acct(id) && old(self).free_of(id) >= amount),
            !ok ==> *final(self) == *old(self),
            ok ==> final(self).free_of(id) == old(self).free_of(id) - amount
                && final(self).reserved_of(id) == old(self).reserved_of(id) + amount,
            forall|x: u64| (#[trigger] final(self).has_acct(x)) == old(self).has_acct(x),
            forall|x: u64| x != id ==> (#[trigger] final(self).free_of(x)) == old(self).free_of(x),
            forall|x: u64|
                x != id ==> (#[trigger] final(self).reserved_of(x)) == old(self).reserved_of(x),
    {
        match self.find(id) {
            Some(k) => {
                proof {
                    self.lemma_at_index(k as int);
                }
                let a = self.accounts[k];
                if a.free >= amount {
                    let ghost pre = *self;
                    let updated = Account {
                        id: a.id,
                        free: a.free - amount,
                        reserved: a.reserved + amount,
                    };
                    self.accounts.set(k, updated);
                    proof {
                        Self::lemma_update_frame(pre, *self, k as int);
                    }
                    true
                } else {
                    false
                }
            },
            None => false,
        }
    }

    /// Returns reserved funds to the free balance. The amount actually
    /// moved is capped by what stands in reserve; an absent account is left
    /// untouched.
    pub fn release(&mut self, id: u64, amount: u128)
        requires
            old(self).wf(),
        ensures
            final(self).wf(),
            old(self).has_acct(id) ==> final(self).free_of(id) == old(self).free_of(id) + min_u128(
                amount,
                old(self).reserved_of(id),
            ) && final(self).reserved_of(id) == old(self).reserved_of(id) - min_u128(
                amount,
                old(self).reserved_of(id),
            ),
            !old(self).has_acct(id) ==> *final(self) == *old(self),
            forall|x: u64| (#[trigger] final(self).has_acct(x)) == old(self).has_acct(x),
            forall|x: u64| x != id ==> (#[trigger] final(self).free_of(x)) == old(self).free_of(x),
            forall|x: u64|
                x != id ==> (#[trigger] final(self).reserved_of(x)) == old(self).reserved_of(x),
    {
        match self.find(id) {
            Some(k) => {
                proof {
                    self.lemma_at_index(k as int);
                }
                let a = self.accounts[k];
                let moved = if amount <= a.reserved {
                    amount
                } else {
                    a.reserved
                };
                let ghost pre = *self;
                let updated = Account {
                    id: a.id,
                    free: a.free + moved,
                    reserved: a.reserved - moved,
                };
                self.accounts.set(k, updated);
                proof {
                    Self::lemma_update_frame(pre, *self, k as int);
                }
            },
            None => {},
        }
    }
}

/// The smaller of two balances.
pub open spec fn min_u128(a: u128, b: u128) -> u128 {
    if a <= b {
        a
    } else {
        b
    }
}

} // verus!
