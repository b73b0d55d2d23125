//! The delegation registry and its time-locked announcement protocol.
//!
//! The registry owns the set of active delegations per principal, the set of
//! pending announcements per delegate, and the balance ledger that backs the
//! storage deposits. Every state transition is atomic: on any error the
//! registry is left exactly as it was.

use vstd::prelude::*;

use crate::action::Action;
use crate::action::spec_hash;
use crate::action::call_hash;
use crate::deposit::Config;
use crate::deposit::spec_delegation_deposit;
use crate::deposit::spec_announcement_deposit;
use crate::deposit::delegation_deposit;
use crate::deposit::announcement_deposit;
use crate::deposit::lemma_delegation_deposit_in_range;
use crate::deposit::lemma_announcement_deposit_in_range;
use crate::ledger::Ledger;
use crate::ledger::min_u128;
use crate::policy::ProxyType;
use crate::policy::permits;
use crate::policy::superset_of;

verus! {

/// Outcome taxonomy of every registry transition.
#[derive(Clone, Copy, Debug, PartialEq, Eq, Structural)]
pub enum Error {
    /// The action is not permitted under the delegation's scope.
    PolicyViolation,
    /// A count cap (delegations or pending announcements) is hit.
    ResourceExhausted,
    /// The storage deposit could not be reserved.
    InsufficientFunds,
    /// No matching delegation or announcement stands.
    NotFound,
    /// Too early to execute, or a zero-delay delegation was announced.
    TimingViolation,
    /// The delegation already stands.
    DuplicateEntry,
}

/// One active delegation, owned by its principal.
#[derive(Clone, Copy, Debug)]
pub struct Delegation {
    /// The account whose authority is delegated.
    pub principal: u64,
    /// The account permitted to act for the principal.
    pub delegate: u64,
    /// The permission scope the delegate is restricted to.
    pub scope: ProxyType,
    /// Blocks that must pass between announcing and executing an action.
    pub delay: u64,
    /// The storage deposit reserved from the principal at creation.
    pub deposit_held: u128,
}

/// One pending announcement: a delegate's declared intent to execute a
/// specific action once the delay has elapsed.
#[derive(Clone, Copy, Debug)]
pub struct Announcement {
    /// The delegate that announced.
    pub delegate: u64,
    /// The principal the action is to run for.
    pub principal: u64,
    /// Hash identifying the announced action.
    pub action_hash: u64,
    /// Block height at which the announcement was made.
    pub created_at: u64,
    /// The storage deposit reserved from the delegate at announcement.
    pub deposit_held: u128,
}

/// Whether a delegation carries exactly this (principal, delegate, scope)
/// triple.
pub open spec fn dmatch(d: Delegation, principal: u64, delegate: u64, scope: ProxyType) -> bool {
    d.principal == principal && d.delegate == delegate && d.scope == scope
}

/// Whether a delegation joins this principal and delegate, whatever its
/// scope.
pub open spec fn pair_match(d: Delegation, principal: u64, delegate: u64) -> bool {
    d.principal == principal && d.delegate == delegate
}

/// Whether an announcement carries exactly this (delegate, principal, hash)
/// triple.
pub open spec fn amatch(a: Announcement, delegate: u64, principal: u64, h: u64) -> bool {
    a.delegate == delegate && a.principal == principal && a.action_hash == h
}

/// Whether an announcement made at `created_at` has outlived this
/// delegation's delay at block `now`.
pub open spec fn timely(d: Delegation, created_at: u64, now: u64) -> bool {
    created_at + d.delay <= now
}

/// How many delegations in `s` belong to this principal.
pub open spec fn count_delegations_of(s: Seq<Delegation>, principal: u64) -> int
    decreases s.len(),
{
    if s.len() == 0 {
        0
    } else {
        count_delegations_of(s.drop_last(), principal) + if s.last().principal == principal {
            1int
        } else {
            0int
        }
    }
}

/// How many announcements in `s` belong to this delegate.
pub open spec fn count_pending_of(s: Seq<Announcement>, delegate: u64) -> int
    decreases s.len(),
{
    if s.len() == 0 {
        0
    } else {
        count_pending_of(s.drop_last(), delegate) + if s.last().delegate == delegate {
            1int
        } else {
            0int
        }
    }
}

/// No two delegations carry the same (principal, delegate, scope) triple.
pub open spec fn unique_triples(s: Seq<Delegation>) -> bool {
    forall|i: int, j: int|
        #![trigger s[i], s[j]]
        0 <= i < j < s.len() ==> !(s[i].principal == s[j].principal && s[i].delegate
            == s[j].delegate && s[i].scope == s[j].scope)
}

proof fn lemma_count_delegations_bounds(s: Seq<Delegation>, principal: u64)
    ensures
        0 <= count_delegations_of(s, principal) <= s.len(),
    decreases s.len(),
{
    if s.len() > 0 {
        lemma_count_delegations_bounds(s.drop_last(), principal);
    }
}

proof fn lemma_count_pending_bounds(s: Seq<Announcement>, delegate: u64)
    ensures
        0 <= count_pending_of(s, delegate) <= s.len(),
    decreases s.len(),
{
    if s.len() > 0 {
        lemma_count_pending_bounds(s.drop_last(), delegate);
    }
}

proof fn lemma_count_delegations_push(s: Seq<Delegation>, d: Delegation, principal: u64)
    ensures
        count_delegations_of(s.push(d), principal) == count_delegations_of(s, principal) + if d.principal
            == principal {
            1int
        } else {
            0int
        },
{
    assert(s.push(d).drop_last() =~= s);
    assert(s.push(d).last() == d);
}

proof fn lemma_count_pending_push(s: Seq<Announcement>, a: Announcement, delegate: u64)
    ensures
        count_pending_of(s.push(a), delegate) == count_pending_of(s, delegate) + if a.delegate
            == delegate {
            1int
        } else {
            0int
        },
{
    assert(s.push(a).drop_last() =~= s);
    assert(s.push(a).last() == a);
}

proof fn lemma_count_delegations_remove(s: Seq<Delegation>, i: int, principal: u64)
    requires
        0 <= i < s.len(),
    ensures
        count_delegations_of(s.remove(i), principal) == count_delegations_of(s, principal)
            - if s[i].principal == principal {
            1int
        } else {
            0int
        },
    decreases s.len(),
{
    s.remove_ensures(i);
    if i == s.len() - 1 {
        assert(s.remove(i) =~= s.drop_last());
    } else {
        let t = s.drop_last();
        assert(s.remove(i).drop_last() =~= t.remove(i));
        assert(s.remove(i).last() == s.last());
        assert(t[i] == s[i]);
        lemma_count_delegations_remove(t, i, principal);
    }
}

proof fn lemma_count_pending_remove(s: Seq<Announcement>, i: int, delegate: u64)
    requires
        0 <= i < s.len(),
    ensures
        count_pending_of(s.remove(i), delegate) == count_pending_of(s, delegate) - if s[i].delegate
            == delegate {
            1int
        } else {
            0int
        },
    decreases s.len(),
{
    s.remove_ensures(i);
    if i == s.len() - 1 {
        assert(s.remove(i) =~= s.drop_last());
    } else {
        let t = s.drop_last();
        assert(s.remove(i).drop_last() =~= t.remove(i));
        assert(s.remove(i).last() == s.last());
        assert(t[i] == s[i]);
        lemma_count_pending_remove(t, i, delegate);
    }
}

/// The stateful core: active delegations, pending announcements, the
/// balance ledger and the deployment parameters.
pub struct Registry {
    /// The deployment parameters this instance was built with.
    pub cfg: Config,
    /// The reserved-balance ledger backing the deposits.
    pub ledger: Ledger,
    /// All active delegations.
    pub delegations: Vec<Delegation>,
    /// All pending announcements.
    pub announcements: Vec<Announcement>,
}

impl Registry {
    /// The registry invariant: valid parameters, a well-formed ledger,
    /// unique delegation triples, counts within their caps, and an open
    /// account behind every held deposit.
    pub open spec fn wf(self) -> bool {
        &&& self.cfg.wf()
        &&& self.ledger.wf()
        &&& unique_triples(self.delegations@)
        &&& forall|p: u64|
            #[trigger] count_delegations_of(self.delegations@, p) <= self.cfg.max_delegations
        &&& forall|d: u64| #[trigger] count_pending_of(self.announcements@, d) <= self.cfg.max_pending
        &&& forall|i: int|
            0 <= i < self.delegations@.len() ==> self.ledger.has_acct(
                (#[trigger] self.delegations@[i]).principal,
            )
        &&& forall|i: int|
            0 <= i < self.announcements@.len() ==> self.ledger.has_acct(
                (#[trigger] self.announcements@[i]).delegate,
            )
    }

    /// Whether a delegation with this exact triple stands.
    pub open spec fn has_delegation(self, principal: u64, delegate: u64, scope: ProxyType) -> bool {
        exists|i: int|
            0 <= i < self.delegations@.len() && dmatch(
                #[trigger] self.delegations@[i],
                principal,
                delegate,
                scope,
            )
    }

    /// Whether any delegation joins this principal and delegate.
    pub open spec fn has_pair(self, principal: u64, delegate: u64) -> bool {
        exists|i: int|
            0 <= i < self.delegations@.len() && pair_match(
                #[trigger] self.delegations@[i],
                principal,
                delegate,
            )
    }

    /// Whether any delegation of the pair carries a positive delay.
    pub open spec fn has_delayed_pair(self, principal: u64, delegate: u64) -> bool {
        exists|i: int|
            0 <= i < self.delegations@.len() && pair_match(
                #[trigger] self.delegations@[i],
                principal,
                delegate,
            ) && self.delegations@[i].delay > 0
    }

    /// Whether any delegation of the pair permits immediate execution.
    pub open spec fn has_immediate_pair(self, principal: u64, delegate: u64) -> bool {
        exists|i: int|
            0 <= i < self.delegations@.len() && pair_match(
                #[trigger] self.delegations@[i],
                principal,
                delegate,
            ) && self.delegations@[i].delay == 0
    }

    /// Whether any zero-delay delegation of the pair permits this action.
    pub open spec fn has_immediate_permitting(
        self,
        principal: u64,
        delegate: u64,
        action: Action,
    ) -> bool {
        exists|i: int|
            0 <= i < self.delegations@.len() && pair_match(
                #[trigger] self.delegations@[i],
                principal,
                delegate,
            ) && self.delegations@[i].delay == 0 && permits(self.delegations@[i].scope, action)
    }

    /// Whether any delegation of the pair has its delay elapsed for an
    /// announcement made at `created_at`.
    pub open spec fn has_timely_pair(
        self,
        principal: u64,
        delegate: u64,
        created_at: u64,
        now: u64,
    ) -> bool {
        exists|i: int|
            0 <= i < self.delegations@.len() && pair_match(
                #[trigger] self.delegations@[i],
                principal,
                delegate,
            ) && timely(self.delegations@[i], created_at, now)
    }

    /// Whether any delegation of the pair is both timely and permits the
    /// action.
    pub open spec fn has_executable(
        self,
        principal: u64,
        delegate: u64,
        created_at: u64,
        now: u64,
        action: Action,
    ) -> bool {
        exists|i: int|
            0 <= i < self.delegations@.len() && pair_match(
                #[trigger] self.delegations@[i],
                principal,
                delegate,
            ) && timely(self.delegations@[i], created_at, now) && permits(
                self.delegations@[i].scope,
                action,
            )
    }

    /// Whether an announcement with this triple is pending.
    pub open spec fn has_announcement(self, delegate: u64, principal: u64, h: u64) -> bool {
        exists|i: int|
            0 <= i < self.announcements@.len() && amatch(
                #[trigger] self.announcements@[i],
                delegate,
                principal,
                h,
            )
    }
}

/// Index `i` names the earliest pending announcement with this triple.
pub open spec fn first_announcement(
    s: Seq<Announcement>,
    i: int,
    delegate: u64,
    principal: u64,
    h: u64,
) -> bool {
    &&& 0 <= i < s.len()
    &&& amatch(s[i], delegate, principal, h)
    &&& forall|k: int| 0 <= k < i ==> !amatch(#[trigger] s[k], delegate, principal, h)
}

/// The ledger transition performed by a successful reservation of `amount`
/// from `id`.
pub open spec fn ledger_reserved(pre: Ledger, post: Ledger, id: u64, amount: int) -> bool {
    &&& post.free_of(id) == pre.free_of(id) - amount
    &&& post.reserved_of(id) == pre.reserved_of(id) + amount
    &&& forall|x: u64| x != id ==> (#[trigger] post.free_of(x)) == pre.free_of(x)
    &&& forall|x: u64| x != id ==> (#[trigger] post.reserved_of(x)) == pre.reserved_of(x)
    &&& forall|x: u64| (#[trigger] post.has_acct(x)) == pre.has_acct(x)
}

/// The ledger transition performed by releasing `amount` back to `id`; the
/// amount moved is capped by what stands in reserve.
pub open spec fn ledger_released(pre: Ledger, post: Ledger, id: u64, amount: u128) -> bool {
    let m = min_u128(amount, pre.reserved_of(id));
    &&& post.free_of(id) == pre.free_of(id) + m
    &&& post.reserved_of(id) == pre.reserved_of(id) - m
    &&& forall|x: u64| x != id ==> (#[trigger] post.free_of(x)) == pre.free_of(x)
    &&& forall|x: u64| x != id ==> (#[trigger] post.reserved_of(x)) == pre.reserved_of(x)
    &&& forall|x: u64| (#[trigger] post.has_acct(x)) == pre.has_acct(x)
}

/// The delegation a successful `create_delegation` records.
pub open spec fn new_delegation(
    pre: Registry,
    principal: u64,
    delegate: u64,
    scope: ProxyType,
    delay: u64,
) -> Delegation {
    Delegation {
        principal,
        delegate,
        scope,
        delay,
        deposit_held: spec_delegation_deposit(
            pre.cfg,
            count_delegations_of(pre.delegations@, principal),
        ) as u128,
    }
}

/// Preconditions under which creating a delegation succeeds.
pub open spec fn can_create(
    pre: Registry,
    principal: u64,
    delegate: u64,
    scope: ProxyType,
) -> bool {
    &&& !pre.has_delegation(principal, delegate, scope)
    &&& count_delegations_of(pre.delegations@, principal) < pre.cfg.max_delegations
    &&& pre.ledger.has_acct(principal)
    &&& pre.ledger.free_of(principal) >= spec_delegation_deposit(
        pre.cfg,
        count_delegations_of(pre.delegations@, principal),
    )
}

/// Everything `create_delegation` does, for every outcome.
pub open spec fn create_transition(
    pre: Registry,
    post: Registry,
    principal: u64,
    delegate: u64,
    scope: ProxyType,
    delay: u64,
    r: Result<(), Error>,
) -> bool {
    let dup = pre.has_delegation(principal, delegate, scope);
    let c = count_delegations_of(pre.delegations@, principal);
    let dep = spec_delegation_deposit(pre.cfg, c);
    let funded = pre.ledger.has_acct(principal) && pre.ledger.free_of(principal) >= dep;
    &&& post.cfg == pre.cfg
    &&& post.announcements@ == pre.announcements@
    &&& (r is Ok <==> can_create(pre, principal, delegate, scope))
    &&& (dup ==> r == Result::<(), Error>::Err(Error::DuplicateEntry))
    &&& (!dup && c >= pre.cfg.max_delegations ==> r == Result::<(), Error>::Err(
        Error::ResourceExhausted,
    ))
    &&& (!dup && c < pre.cfg.max_delegations && !funded ==> r == Result::<(), Error>::Err(
        Error::InsufficientFunds,
    ))
    &&& (r is Ok ==> post.delegations@ == pre.delegations@.push(
        new_delegation(pre, principal, delegate, scope, delay),
    ) && ledger_reserved(pre.ledger, post.ledger, principal, dep))
    &&& (r is Err ==> post == pre)
}

/// Everything `remove_delegation` does, for every outcome.
pub open spec fn remove_transition(
    pre: Registry,
    post: Registry,
    principal: u64,
    delegate: u64,
    scope: ProxyType,
    r: Result<(), Error>,
) -> bool {
    &&& post.cfg == pre.cfg
    &&& post.announcements@ == pre.announcements@
    &&& (r is Ok <==> pre.has_delegation(principal, delegate, scope))
    &&& (r is Err ==> r == Result::<(), Error>::Err(Error::NotFound) && post == pre)
    &&& (r is Ok ==> exists|i: int|
        0 <= i < pre.delegations@.len() && dmatch(
            #[trigger] pre.delegations@[i],
            principal,
            delegate,
            scope,
        ) && post.delegations@ == pre.delegations@.remove(i) && ledger_released(
            pre.ledger,
            post.ledger,
            principal,
            pre.delegations@[i].deposit_held,
        ))
}

impl Registry {
    /// Builds a registry over an empty ledger. Refused (`None`) when the
    /// configuration is not well-formed.
    pub fn new(cfg: Config) -> (r: Option<Registry>)
        ensures
            r is Some <==> cfg.wf(),
            r is Some ==> {
                let reg = r->0;
                &&& reg.wf()
                &&& reg.cfg == cfg
                &&& reg.delegations@.len() == 0
                &&& reg.announcements@.len() == 0
                &&& forall|x: u64| !#[trigger] reg.ledger.has_acct(x)
            },
    {
        if !cfg.is_valid() {
            return None;
        }
        let reg = Registry {
            cfg,
            ledger: Ledger::new(),
            delegations: Vec::new(),
            announcements: Vec::new(),
        };
        Some(reg)
    }

    /// Opens an account holding `free` on the backing ledger.
    pub fn open_account(&mut self, id: u64, free: u128) -> (r: Result<(), Error>)
        requires
            old(self).wf(),
        ensures
            final(self).wf(),
            final(self).cfg == old(self).cfg,
            final(self).delegations@ == old(self).delegations@,
            final(self).announcements@ == old(self).announcements@,
            r is Ok <==> !old(self).ledger.has_acct(id),
            r is Err ==> r == Result::<(), Error>::Err(Error::DuplicateEntry) && *final(self)
                == *old(self),
            r is Ok ==> final(self).ledger.has_acct(id) && final(self).ledger.free_of(id) == free
                && final(self).ledger.reserved_of(id) == 0,
            forall|x: u64|
                x != id ==> (#[trigger] final(self).ledger.has_acct(x)) == old(
                    self,
                ).ledger.has_acct(x),
            forall|x: u64|
                x != id ==> (#[trigger] final(self).ledger.free_of(x)) == old(self).ledger.free_of(
                    x,
                ),
            forall|x: u64|
                x != id ==> (#[trigger] final(self).ledger.reserved_of(x)) == old(
                    self,
                ).ledger.reserved_of(x),
    {
        if self.ledger.open_account(id, free) {
            Ok(())
        } else {
            Err(Error::DuplicateEntry)
        }
    }

    /// Reads a free balance off the backing ledger.
    pub fn free_balance(&self, id: u64) -> (b: u128)
        requires
            self.wf(),
        ensures
            b == self.ledger.free_of(id),
    {
        self.ledger.free_balance(id)
    }

    /// Reads a reserved balance off the backing ledger.
    pub fn reserved_balance(&self, id: u64) -> (b: u128)
        requires
            self.wf(),
        ensures
            b == self.ledger.reserved_of(id),
    {
        self.ledger.reserved_balance(id)
    }

    fn find_delegation_idx(&self, principal: u64, delegate: u64, scope: ProxyType) -> (r: Option<
        usize,
    >)
        ensures
            match r {
                Some(i) => i < self.delegations@.len() && dmatch(
                    self.delegations@[i as int],
                    principal,
                    delegate,
                    scope,
                ),
                None => !self.has_delegation(principal, delegate, scope),
            },
    {
        let n = self.delegations.len();
        let mut k: usize = 0;
        while k < n
            invariant
                n == self.delegations@.len(),
                k <= n,
                forall|j: int|
                    0 <= j < k ==> !dmatch(
                        #[trigger] self.delegations@[j],
                        principal,
                        delegate,
                        scope,
                    ),
            decreases n - k,
        {
            let d = self.delegations[k];
            if d.principal == principal && d.delegate == delegate && d.scope == scope {
                return Some(k);
            }
            k += 1;
        }
        None
    }

    /// How many delegations this principal holds: executable counterpart of
    /// [`count_delegations_of`].
    pub fn delegation_count(&self, principal: u64) -> (c: usize)
        ensures
            c == count_delegations_of(self.delegations@, principal),
    {
        let n = self.delegations.len();
        let mut c: usize = 0;
        let mut k: usize = 0;
        proof {
            assert(self.delegations@.take(0) =~= Seq::<Delegation>::empty());
        }
        while k < n
            invariant
                n == self.delegations@.len(),
                k <= n,
                c <= k,
                c == count_delegations_of(self.delegations@.take(k as int), principal),
            decreases n - k,
        {
            proof {
                assert(self.delegations@.take(k as int + 1).drop_last() =~= self.delegations@.take(
                    k as int,
                ));
                assert(self.delegations@.take(k as int + 1).last() == self.delegations@[k as int]);
            }
            if self.delegations[k].principal == principal {
                c += 1;
            }
            k += 1;
        }
        proof {
            assert(self.delegations@.take(n as int) =~= self.delegations@);
        }
        c
    }

    /// How many announcements this delegate has pending: executable
    /// counterpart of [`count_pending_of`].
    pub fn pending_count(&self, delegate: u64) -> (c: usize)
        ensures
            c == count_pending_of(self.announcements@, delegate),
    {
        let n = self.announcements.len();
        let mut c: usize = 0;
        let mut k: usize = 0;
        proof {
            assert(self.announcements@.take(0) =~= Seq::<Announcement>::empty());
        }
        while k < n
            invariant
                n == self.announcements@.len(),
                k <= n,
                c <= k,
                c == count_pending_of(self.announcements@.take(k as int), delegate),
            decreases n - k,
        {
            proof {
                assert(self.announcements@.take(k as int + 1).drop_last()
                    =~= self.announcements@.take(k as int));
                assert(self.announcements@.take(k as int + 1).last()
                    == self.announcements@[k as int]);
            }
            if self.announcements[k].delegate == delegate {
                c += 1;
            }
            k += 1;
        }
        proof {
            assert(self.announcements@.take(n as int) =~= self.announcements@);
        }
        c
    }

    /// Registers a delegation: principal grants delegate authority within
    /// `scope`, execution delayed by `delay` blocks. Reserves the storage
    /// deposit from the principal.
    pub fn create_delegation(
        &mut self,
        principal: u64,
        delegate: u64,
        scope: ProxyType,
        delay: u64,
    ) -> (r: Result<(), Error>)
        requires
            old(self).wf(),
        ensures
            final(self).wf(),
            create_transition(*old(self), *final(self), principal, delegate, scope, delay, r),
    {
        if let Some(_i) = self.find_delegation_idx(principal, delegate, scope) {
            return Err(Error::DuplicateEntry);
        }
        let c = self.delegation_count(principal);
        proof {
            lemma_count_delegations_bounds(self.delegations@, principal);
        }
        if c >= self.cfg.max_delegations as usize {
            return Err(Error::ResourceExhausted);
        }
        let dep = delegation_deposit(&self.cfg, c);
        if !self.ledger.reserve(principal, dep) {
            return Err(Error::InsufficientFunds);
        }
        let ghost pre = *old(self);
        let nd = Delegation { principal, delegate, scope, delay, deposit_held: dep };
        self.delegations.push(nd);
        proof {
            assert(self.delegations@ == pre.delegations@.push(nd));
            assert forall|q: u64| #[trigger] count_delegations_of(self.delegations@, q)
                <= self.cfg.max_delegations by {
                lemma_count_delegations_push(pre.delegations@, nd, q);
            }
            assert(unique_triples(self.delegations@)) by {
                assert forall|i: int, j: int|
                    #![trigger self.delegations@[i], self.delegations@[j]]
                    0 <= i < j < self.delegations@.len() implies !(self.delegations@[i].principal
                    == self.delegations@[j].principal && self.delegations@[i].delegate
                    == self.delegations@[j].delegate && self.delegations@[i].scope
                    == self.delegations@[j].scope) by {
                    if j == pre.delegations@.len() {
                        assert(self.delegations@[j] == nd);
                        assert(self.delegations@[i] == pre.delegations@[i]);
                        if pre.delegations@[i].principal == principal && pre.delegations@[i].delegate
                            == delegate && pre.delegations@[i].scope == scope {
                            assert(dmatch(pre.delegations@[i], principal, delegate, scope));
                            assert(pre.has_delegation(principal, delegate, scope));
                        }
                    } else {
                        assert(self.delegations@[i] == pre.delegations@[i]);
                        assert(self.delegations@[j] == pre.delegations@[j]);
                    }
                }
            }
            assert forall|i: int|
                0 <= i < self.delegations@.len() implies self.ledger.has_acct(
                (#[trigger] self.delegations@[i]).principal,
            ) by {
                if i < pre.delegations@.len() {
                    assert(self.delegations@[i] == pre.delegations@[i]);
                    assert(pre.ledger.has_acct(pre.delegations@[i].principal));
                } else {
                    assert(self.delegations@[i] == nd);
                }
            }
        }
        Ok(())
    }

    /// Removes the delegation with this exact triple and releases its
    /// deposit back to the principal.
    pub fn remove_delegation(&mut self, principal: u64, delegate: u64, scope: ProxyType) -> (r:
        Result<(), Error>)
        requires
            old(self).wf(),
        ensures
            final(self).wf(),
            remove_transition(*old(self), *final(self), principal, delegate, scope, r),
    {
        match self.find_delegation_idx(principal, delegate, scope) {
            None => Err(Error::NotFound),
            Some(i) => {
                let dep = self.delegations[i].deposit_held;
                let ghost pre = *old(self);
                self.delegations.remove(i);
                self.ledger.release(principal, dep);
                proof {
                    pre.delegations@.remove_ensures(i as int);
                    assert(self.delegations@ == pre.delegations@.remove(i as int));
                    assert forall|q: u64| #[trigger] count_delegations_of(self.delegations@, q)
                        <= self.cfg.max_delegations by {
                        lemma_count_delegations_remove(pre.delegations@, i as int, q);
                        lemma_count_delegations_bounds(pre.delegations@, q);
                    }
                    assert forall|a: int, b: int|
                        #![trigger self.delegations@[a], self.delegations@[b]]
                        0 <= a < b < self.delegations@.len() implies !(self.delegations@[a].principal
                        == self.delegations@[b].principal && self.delegations@[a].delegate
                        == self.delegations@[b].delegate && self.delegations@[a].scope
                        == self.delegations@[b].scope) by {
                        let a0 = if a < i as int {
                            a
                        } else {
                            a + 1
                        };
                        let b0 = if b < i as int {
                            b
                        } else {
                            b + 1
                        };
                        assert(self.delegations@[a] == pre.delegations@[a0]);
                        assert(self.delegations@[b] == pre.delegations@[b0]);
                    }
                    assert forall|k: int|
                        0 <= k < self.delegations@.len() implies self.ledger.has_acct(
                        (#[trigger] self.delegations@[k]).principal,
                    ) by {
                        let k0 = if k < i as int {
                            k
                        } else {
                            k + 1
                        };
                        assert(self.delegations@[k] == pre.delegations@[k0]);
                        assert(pre.ledger.has_acct(pre.delegations@[k0].principal));
                    }
                    assert(dmatch(pre.delegations@[i as int], principal, delegate, scope));
                }
                Ok(())
            },
        }
    }
}

/// The announcement a successful `announce` records.
pub open spec fn new_announcement(
    pre: Registry,
    delegate: u64,
    principal: u64,
    action: Action,
    now: u64,
) -> Announcement {
    Announcement {
        delegate,
        principal,
        action_hash: spec_hash(action),
        created_at: now,
        deposit_held: spec_announcement_deposit(
            pre.cfg,
            count_pending_of(pre.announcements@, delegate),
        ) as u128,
    }
}

/// Preconditions under which announcing succeeds.
pub open spec fn can_announce(pre: Registry, delegate: u64, principal: u64) -> bool {
    &&& pre.has_delayed_pair(principal, delegate)
    &&& count_pending_of(pre.announcements@, delegate) < pre.cfg.max_pending
    &&& pre.ledger.has_acct(delegate)
    &&& pre.ledger.free_of(delegate) >= spec_announcement_deposit(
        pre.cfg,
        count_pending_of(pre.announcements@, delegate),
    )
}

/// Everything `announce` does, for every outcome.
pub open spec fn announce_transition(
    pre: Registry,
    post: Registry,
    delegate: u64,
    principal: u64,
    action: Action,
    now: u64,
    r: Result<(), Error>,
) -> bool {
    let pc = count_pending_of(pre.announcements@, delegate);
    let adep = spec_announcement_deposit(pre.cfg, pc);
    let funded = pre.ledger.has_acct(delegate) && pre.ledger.free_of(delegate) >= adep;
    &&& post.cfg == pre.cfg
    &&& post.delegations@ == pre.delegations@
    &&& (r is Ok <==> can_announce(pre, delegate, principal))
    &&& (!pre.has_pair(principal, delegate) ==> r == Result::<(), Error>::Err(Error::NotFound))
    &&& (pre.has_pair(principal, delegate) && !pre.has_delayed_pair(principal, delegate) ==> r
        == Result::<(), Error>::Err(Error::TimingViolation))
    &&& (pre.has_delayed_pair(principal, delegate) && pc >= pre.cfg.max_pending ==> r
        == Result::<(), Error>::Err(Error::ResourceExhausted))
    &&& (pre.has_delayed_pair(principal, delegate) && pc < pre.cfg.max_pending && !funded ==> r
        == Result::<(), Error>::Err(Error::InsufficientFunds))
    &&& (r is Ok ==> post.announcements@ == pre.announcements@.push(
        new_announcement(pre, delegate, principal, action, now),
    ) && ledger_reserved(pre.ledger, post.ledger, delegate, adep))
    &&& (r is Err ==> post == pre)
}

/// Everything `execute_announcement` does, for every outcome. The timing
/// and policy checks are made against the delegations standing at execution
/// time, never cached from announcement time.
pub open spec fn execute_transition(
    pre: Registry,
    post: Registry,
    delegate: u64,
    principal: u64,
    action: Action,
    now: u64,
    r: Result<(), Error>,
) -> bool {
    let h = spec_hash(action);
    &&& post.cfg == pre.cfg
    &&& post.delegations@ == pre.delegations@
    &&& (!pre.has_announcement(delegate, principal, h) ==> r == Result::<(), Error>::Err(
        Error::NotFound,
    ) && post == pre)
    &&& (pre.has_announcement(delegate, principal, h) ==> exists|i: int|
        #[trigger] first_announcement(pre.announcements@, i, delegate, principal, h)
            && execute_checked(pre, post, delegate, principal, action, now, r, i))
}

/// The outcome of `execute_announcement` once the pending announcement has
/// been located at index `i`.
pub open spec fn execute_checked(
    pre: Registry,
    post: Registry,
    delegate: u64,
    principal: u64,
    action: Action,
    now: u64,
    r: Result<(), Error>,
    i: int,
) -> bool {
    let created = pre.announcements@[i].created_at;
    &&& (!pre.has_pair(principal, delegate) ==> r == Result::<(), Error>::Err(Error::NotFound)
        && post == pre)
    &&& (pre.has_pair(principal, delegate) && !pre.has_timely_pair(
        principal,
        delegate,
        created,
        now,
    ) ==> r == Result::<(), Error>::Err(Error::TimingViolation) && post == pre)
    &&& (pre.has_timely_pair(principal, delegate, created, now) && !pre.has_executable(
        principal,
        delegate,
        created,
        now,
        action,
    ) ==> r == Result::<(), Error>::Err(Error::PolicyViolation) && post == pre)
    &&& (pre.has_executable(principal, delegate, created, now, action) ==> r is Ok
        && post.announcements@ == pre.announcements@.remove(i) && ledger_released(
        pre.ledger,
        post.ledger,
        delegate,
        pre.announcements@[i].deposit_held,
    ))
}

/// Two first matches are the same match.
proof fn lemma_first_announcement_unique(
    s: Seq<Announcement>,
    i: int,
    j: int,
    delegate: u64,
    principal: u64,
    h: u64,
)
    requires
        first_announcement(s, i, delegate, principal, h),
        first_announcement(s, j, delegate, principal, h),
    ensures
        i == j,
{
    if i < j {
        assert(!amatch(s[i], delegate, principal, h));
    }
    if j < i {
        assert(!amatch(s[j], delegate, principal, h));
    }
}

/// Everything `reject_announcement` does, for every outcome.
pub open spec fn reject_transition(
    pre: Registry,
    post: Registry,
    delegate: u64,
    principal: u64,
    h: u64,
    r: Result<(), Error>,
) -> bool {
    &&& post.cfg == pre.cfg
    &&& post.delegations@ == pre.delegations@
    &&& (r is Ok <==> pre.has_announcement(delegate, principal, h))
    &&& (r is Err ==> r == Result::<(), Error>::Err(Error::NotFound) && post == pre)
    &&& (r is Ok ==> exists|i: int|
        #[trigger] first_announcement(pre.announcements@, i, delegate, principal, h)
            && post.announcements@ == pre.announcements@.remove(i) && ledger_released(
            pre.ledger,
            post.ledger,
            delegate,
            pre.announcements@[i].deposit_held,
        ))
}

impl Registry {
    fn find_announcement_idx(&self, delegate: u64, principal: u64, h: u64) -> (r: Option<usize>)
        ensures
            match r {
                Some(i) => first_announcement(self.announcements@, i as int, delegate, principal, h),
                None => !self.has_announcement(delegate, principal, h),
            },
    {
        let n = self.announcements.len();
        let mut k: usize = 0;
        while k < n
            invariant
                n == self.announcements@.len(),
                k <= n,
                forall|j: int|
                    0 <= j < k ==> !amatch(#[trigger] self.announcements@[j], delegate, principal, h),
            decreases n - k,
        {
            let a = self.announcements[k];
            if a.delegate == delegate && a.principal == principal && a.action_hash == h {
                return Some(k);
            }
            k += 1;
        }
        None
    }

    /// A delegate declares the intent to execute `action` for `principal`
    /// once a delay has elapsed, reserving the announcement deposit.
    #[verifier::loop_isolation(false)]
    pub fn announce(&mut self, delegate: u64, principal: u64, action: &Action, now: u64) -> (r:
        Result<(), Error>)
        requires
            old(self).wf(),
        ensures
            final(self).wf(),
            announce_transition(*old(self), *final(self), delegate, principal, *action, now, r),
    {
        let n = self.delegations.len();
        let mut any_pair = false;
        let mut any_delayed = false;
        let mut k: usize = 0;
        while k < n
            invariant
                k <= n,
                any_pair == exists|j: int|
                    0 <= j < k && pair_match(#[trigger] self.delegations@[j], principal, delegate),
                any_delayed == exists|j: int|
                    0 <= j < k && pair_match(#[trigger] self.delegations@[j], principal, delegate)
                        && self.delegations@[j].delay > 0,
            decreases n - k,
        {
            let d = self.delegations[k];
            if d.principal == principal && d.delegate == delegate {
                any_pair = true;
                if d.delay > 0 {
                    any_delayed = true;
                }
            }
            k += 1;
        }
        if !any_pair {
            return Err(Error::NotFound);
        }
        if !any_delayed {
            return Err(Error::TimingViolation);
        }
        let pc = self.pending_count(delegate);
        proof {
            lemma_count_pending_bounds(self.announcements@, delegate);
        }
        if pc >= self.cfg.max_pending as usize {
            return Err(Error::ResourceExhausted);
        }
        let adep = announcement_deposit(&self.cfg, pc);
        if !self.ledger.reserve(delegate, adep) {
            return Err(Error::InsufficientFunds);
        }
        let h = call_hash(action);
        let ghost pre = *old(self);
        let na = Announcement { delegate, principal, action_hash: h, created_at: now, deposit_held: adep };
        self.announcements.push(na);
        proof {
            assert(self.announcements@ == pre.announcements@.push(na));
            assert forall|q: u64| #[trigger] count_pending_of(self.announcements@, q)
                <= self.cfg.max_pending by {
                lemma_count_pending_push(pre.announcements@, na, q);
            }
            assert forall|i: int|
                0 <= i < self.announcements@.len() implies self.ledger.has_acct(
                (#[trigger] self.announcements@[i]).delegate,
            ) by {
                if i < pre.announcements@.len() {
                    assert(self.announcements@[i] == pre.announcements@[i]);
                    assert(pre.ledger.has_acct(pre.announcements@[i].delegate));
                } else {
                    assert(self.announcements@[i] == na);
                }
            }
        }
        Ok(())
    }

    /// Executes a previously announced action once some delegation of the
    /// pair has its delay elapsed and its scope permits the action; the
    /// announcement is consumed and its deposit released to the delegate.
    #[verifier::loop_isolation(false)]
    pub fn execute_announcement(
        &mut self,
        delegate: u64,
        principal: u64,
        action: &Action,
        now: u64,
    ) -> (r: Result<(), Error>)
        requires
            old(self).wf(),
        ensures
            final(self).wf(),
            execute_transition(*old(self), *final(self), delegate, principal, *action, now, r),
    {
        let h = call_hash(action);
        let found = self.find_announcement_idx(delegate, principal, h);
        match found {
            None => Err(Error::NotFound),
            Some(i) => {
                let created = self.announcements[i].created_at;
                let dep = self.announcements[i].deposit_held;
                let n = self.delegations.len();
                let mut any_pair = false;
                let mut any_timely = false;
                let mut any_exec = false;
                let mut k: usize = 0;
                while k < n
                    invariant
                        k <= n,
                        any_pair == exists|j: int|
                            0 <= j < k && pair_match(
                                #[trigger] self.delegations@[j],
                                principal,
                                delegate,
                            ),
                        any_timely == exists|j: int|
                            0 <= j < k && pair_match(
                                #[trigger] self.delegations@[j],
                                principal,
                                delegate,
                            ) && timely(self.delegations@[j], created, now),
                        any_exec == exists|j: int|
                            0 <= j < k && pair_match(
                                #[trigger] self.delegations@[j],
                                principal,
                                delegate,
                            ) && timely(self.delegations@[j], created, now) && permits(
                                self.delegations@[j].scope,
                                *action,
                            ),
                    decreases n - k,
                {
                    let d = self.delegations[k];
                    if d.principal == principal && d.delegate == delegate {
                        any_pair = true;
                        if now >= created && now - created >= d.delay {
                            any_timely = true;
                            if d.scope.filter(action) {
                                any_exec = true;
                            }
                        }
                    }
                    k += 1;
                }
                proof {
                    assert(first_announcement(self.announcements@, i as int, delegate, principal, h));
                }
                if !any_pair {
                    return Err(Error::NotFound);
                }
                if !any_timely {
                    return Err(Error::TimingViolation);
                }
                if !any_exec {
                    return Err(Error::PolicyViolation);
                }
                let ghost pre = *old(self);
                self.announcements.remove(i);
                self.ledger.release(delegate, dep);
                proof {
                    pre.announcements@.remove_ensures(i as int);
                    assert(self.announcements@ == pre.announcements@.remove(i as int));
                    assert forall|q: u64| #[trigger] count_pending_of(self.announcements@, q)
                        <= self.cfg.max_pending by {
                        lemma_count_pending_remove(pre.announcements@, i as int, q);
                        lemma_count_pending_bounds(pre.announcements@, q);
                    }
                    assert forall|j: int|
                        0 <= j < self.announcements@.len() implies self.ledger.has_acct(
                        (#[trigger] self.announcements@[j]).delegate,
                    ) by {
                        let j0 = if j < i as int {
                            j
                        } else {
                            j + 1
                        };
                        assert(self.announcements@[j] == pre.announcements@[j0]);
                        assert(pre.ledger.has_acct(pre.announcements@[j0].delegate));
                    }
                    assert(first_announcement(
                        pre.announcements@,
                        i as int,
                        delegate,
                        principal,
                        h,
                    ));
                }
                Ok(())
            },
        }
    }

    /// Withdraws a pending announcement, releasing its deposit back to the
    /// delegate. Open to the delegate (recalling its intent) and to the
    /// principal (vetoing it); the caller's identity is the host's business.
    pub fn reject_announcement(&mut self, delegate: u64, principal: u64, action_hash: u64) -> (r:
        Result<(), Error>)
        requires
            old(self).wf(),
        ensures
            final(self).wf(),
            reject_transition(*old(self), *final(self), delegate, principal, action_hash, r),
    {
        match self.find_announcement_idx(delegate, principal, action_hash) {
            None => Err(Error::NotFound),
            Some(i) => {
                let dep = self.announcements[i].deposit_held;
                let ghost pre = *old(self);
                self.announcements.remove(i);
                self.ledger.release(delegate, dep);
                proof {
                    pre.announcements@.remove_ensures(i as int);
                    assert(self.announcements@ == pre.announcements@.remove(i as int));
                    assert forall|q: u64| #[trigger] count_pending_of(self.announcements@, q)
                        <= self.cfg.max_pending by {
                        lemma_count_pending_remove(pre.announcements@, i as int, q);
                        lemma_count_pending_bounds(pre.announcements@, q);
                    }
                    assert forall|j: int|
                        0 <= j < self.announcements@.len() implies self.ledger.has_acct(
                        (#[trigger] self.announcements@[j]).delegate,
                    ) by {
                        let j0 = if j < i as int {
                            j
                        } else {
                            j + 1
                        };
                        assert(self.announcements@[j] == pre.announcements@[j0]);
                        assert(pre.ledger.has_acct(pre.announcements@[j0].delegate));
                    }
                    assert(first_announcement(
                        pre.announcements@,
                        i as int,
                        delegate,
                        principal,
                        action_hash,
                    ));
                }
                Ok(())
            },
        }
    }

    /// The immediate path: authorizes `action` for a zero-delay delegation
    /// of the pair. Applying the authorized action is the host's business,
    /// so the registry is not changed.
    #[verifier::loop_isolation(false)]
    pub fn proxy_call(&self, delegate: u64, principal: u64, action: &Action) -> (r: Result<
        (),
        Error,
    >)
        requires
            self.wf(),
        ensures
            r is Ok <==> self.has_immediate_permitting(principal, delegate, *action),
            !self.has_pair(principal, delegate) ==> r == Result::<(), Error>::Err(Error::NotFound),
            self.has_pair(principal, delegate) && !self.has_immediate_pair(principal, delegate)
                ==> r == Result::<(), Error>::Err(Error::TimingViolation),
            self.has_immediate_pair(principal, delegate) && !self.has_immediate_permitting(
                principal,
                delegate,
                *action,
            ) ==> r == Result::<(), Error>::Err(Error::PolicyViolation),
    {
        let n = self.delegations.len();
        let mut any_pair = false;
        let mut any_immediate = false;
        let mut any_permitting = false;
        let mut k: usize = 0;
        while k < n
            invariant
                k <= n,
                any_pair == exists|j: int|
                    0 <= j < k && pair_match(#[trigger] self.delegations@[j], principal, delegate),
                any_immediate == exists|j: int|
                    0 <= j < k && pair_match(#[trigger] self.delegations@[j], principal, delegate)
                        && self.delegations@[j].delay == 0,
                any_permitting == exists|j: int|
                    0 <= j < k && pair_match(#[trigger] self.delegations@[j], principal, delegate)
                        && self.delegations@[j].delay == 0 && permits(
                        self.delegations@[j].scope,
                        *action,
                    ),
            decreases n - k,
        {
            let d = self.delegations[k];
            if d.principal == principal && d.delegate == delegate {
                any_pair = true;
                if d.delay == 0 {
                    any_immediate = true;
                    if d.scope.filter(action) {
                        any_permitting = true;
                    }
                }
            }
            k += 1;
        }
        if !any_pair {
            Err(Error::NotFound)
        } else if !any_immediate {
            Err(Error::TimingViolation)
        } else if !any_permitting {
            Err(Error::PolicyViolation)
        } else {
            Ok(())
        }
    }
}

impl Registry {
    /// Whether some zero-delay delegation lets `delegate` manage the
    /// principal's delegation set at scope `target`: its own scope must
    /// permit delegation management and sit at or above the target scope in
    /// the superset lattice, so a delegate can never hand out authority it
    /// does not itself already hold.
    pub open spec fn has_management_authority(
        self,
        principal: u64,
        delegate: u64,
        target: ProxyType,
    ) -> bool {
        exists|i: int|
            0 <= i < self.delegations@.len() && pair_match(
                #[trigger] self.delegations@[i],
                principal,
                delegate,
            ) && self.delegations@[i].delay == 0 && permits(
                self.delegations@[i].scope,
                Action::ManageDelegates,
            ) && superset_of(self.delegations@[i].scope, target)
    }

    fn find_management_authority(&self, principal: u64, delegate: u64, target: ProxyType) -> (b:
        bool)
        ensures
            b == self.has_management_authority(principal, delegate, target),
    {
        let n = self.delegations.len();
        let mut found = false;
        let mut k: usize = 0;
        while k < n
            invariant
                n == self.delegations@.len(),
                k <= n,
                found == exists|j: int|
                    0 <= j < k && pair_match(#[trigger] self.delegations@[j], principal, delegate)
                        && self.delegations@[j].delay == 0 && permits(
                        self.delegations@[j].scope,
                        Action::ManageDelegates,
                    ) && superset_of(self.delegations@[j].scope, target),
            decreases n - k,
        {
            let d = self.delegations[k];
            if d.principal == principal && d.delegate == delegate && d.delay == 0 {
                if d.scope.filter(&Action::ManageDelegates) && d.scope.is_superset(&target) {
                    found = true;
                }
            }
            k += 1;
        }
        found
    }

    /// A delegate registers a delegation on its principal's behalf. Refused
    /// as a policy violation unless a zero-delay delegation of the pair both
    /// permits delegation management and is a superset of the scope being
    /// handed out — the escalation guard.
    pub fn proxied_create_delegation(
        &mut self,
        delegate: u64,
        principal: u64,
        new_delegate: u64,
        scope: ProxyType,
        delay: u64,
    ) -> (r: Result<(), Error>)
        requires
            old(self).wf(),
        ensures
            final(self).wf(),
            old(self).has_management_authority(principal, delegate, scope) ==> create_transition(
                *old(self),
                *final(self),
                principal,
                new_delegate,
                scope,
                delay,
                r,
            ),
            !old(self).has_management_authority(principal, delegate, scope) ==> r
                == Result::<(), Error>::Err(Error::PolicyViolation) && *final(self) == *old(self),
    {
        if !self.find_management_authority(principal, delegate, scope) {
            return Err(Error::PolicyViolation);
        }
        self.create_delegation(principal, new_delegate, scope, delay)
    }

    /// A delegate removes a delegation on its principal's behalf, under the
    /// same escalation guard as [`Registry::proxied_create_delegation`].
    pub fn proxied_remove_delegation(
        &mut self,
        delegate: u64,
        principal: u64,
        removed_delegate: u64,
        scope: ProxyType,
    ) -> (r: Result<(), Error>)
        requires
            old(self).wf(),
        ensures
            final(self).wf(),
            old(self).has_management_authority(principal, delegate, scope) ==> remove_transition(
                *old(self),
                *final(self),
                principal,
                removed_delegate,
                scope,
                r,
            ),
            !old(self).has_management_authority(principal, delegate, scope) ==> r
                == Result::<(), Error>::Err(Error::PolicyViolation) && *final(self) == *old(self),
    {
        if !self.find_management_authority(principal, delegate, scope) {
            return Err(Error::PolicyViolation);
        }
        self.remove_delegation(principal, removed_delegate, scope)
    }
}

/// Execution cannot come early: while no delegation of the pair has its
/// delay elapsed for the pending announcement — in particular at every
/// block before `created_at + delay` of each delegation — executing fails
/// as a timing violation and changes nothing.
pub proof fn lemma_execute_too_early(
    pre: Registry,
    post: Registry,
    delegate: u64,
    principal: u64,
    action: Action,
    now: u64,
    r: Result<(), Error>,
    i: int,
)
    requires
        execute_transition(pre, post, delegate, principal, action, now, r),
        first_announcement(pre.announcements@, i, delegate, principal, spec_hash(action)),
        pre.has_pair(principal, delegate),
        !pre.has_timely_pair(principal, delegate, pre.announcements@[i].created_at, now),
    ensures
        r == Result::<(), Error>::Err(Error::TimingViolation),
        post == pre,
{
    let h = spec_hash(action);
    assert(pre.has_announcement(delegate, principal, h)) by {
        assert(amatch(pre.announcements@[i], delegate, principal, h));
    }
    let i2 = choose|i2: int|
        #[trigger] first_announcement(pre.announcements@, i2, delegate, principal, h)
            && execute_checked(pre, post, delegate, principal, action, now, r, i2);
    lemma_first_announcement_unique(pre.announcements@, i, i2, delegate, principal, h);
}

/// Execution succeeds exactly when due: once some delegation of the pair
/// has its delay elapsed for the pending announcement and its scope permits
/// the action, executing succeeds, consumes the announcement and releases
/// its deposit to the delegate.
pub proof fn lemma_execute_on_time(
    pre: Registry,
    post: Registry,
    delegate: u64,
    principal: u64,
    action: Action,
    now: u64,
    r: Result<(), Error>,
    i: int,
)
    requires
        execute_transition(pre, post, delegate, principal, action, now, r),
        first_announcement(pre.announcements@, i, delegate, principal, spec_hash(action)),
        pre.has_executable(principal, delegate, pre.announcements@[i].created_at, now, action),
    ensures
        r is Ok,
        post.announcements@ == pre.announcements@.remove(i),
        ledger_released(pre.ledger, post.ledger, delegate, pre.announcements@[i].deposit_held),
{
    let h = spec_hash(action);
    assert(pre.has_announcement(delegate, principal, h)) by {
        assert(amatch(pre.announcements@[i], delegate, principal, h));
    }
    let i2 = choose|i2: int|
        #[trigger] first_announcement(pre.announcements@, i2, delegate, principal, h)
            && execute_checked(pre, post, delegate, principal, action, now, r, i2);
    lemma_first_announcement_unique(pre.announcements@, i, i2, delegate, principal, h);
}

/// Deposit neutrality of a delegation's life cycle: creating a delegation
/// and then removing it leaves every account's free and reserved balance
/// exactly where it started. The amount released on removal is the amount
/// reserved at creation.
pub proof fn lemma_delegation_deposit_round_trip(
    s0: Registry,
    s1: Registry,
    s2: Registry,
    principal: u64,
    delegate: u64,
    scope: ProxyType,
    delay: u64,
)
    requires
        s0.wf(),
        s1.wf(),
        create_transition(s0, s1, principal, delegate, scope, delay, Ok(())),
        remove_transition(s1, s2, principal, delegate, scope, Ok(())),
    ensures
        forall|x: u64| (#[trigger] s2.ledger.free_of(x)) == s0.ledger.free_of(x),
        forall|x: u64| (#[trigger] s2.ledger.reserved_of(x)) == s0.ledger.reserved_of(x),
{
    let c = count_delegations_of(s0.delegations@, principal);
    let dep = spec_delegation_deposit(s0.cfg, c);
    let nd = new_delegation(s0, principal, delegate, scope, delay);
    lemma_count_delegations_bounds(s0.delegations@, principal);
    lemma_delegation_deposit_in_range(s0.cfg, c);
    assert(nd.deposit_held == dep);
    let i = choose|i: int|
        0 <= i < s1.delegations@.len() && dmatch(
            #[trigger] s1.delegations@[i],
            principal,
            delegate,
            scope,
        ) && s2.delegations@ == s1.delegations@.remove(i) && ledger_released(
            s1.ledger,
            s2.ledger,
            principal,
            s1.delegations@[i].deposit_held,
        );
    if i < s0.delegations@.len() {
        assert(s1.delegations@[i] == s0.delegations@[i]);
        assert(dmatch(s0.delegations@[i], principal, delegate, scope));
        assert(s0.has_delegation(principal, delegate, scope));
        assert(false);
    }
    assert(s1.delegations@[i] == nd);
    assert(s1.ledger.reserved_of(principal) == s0.ledger.reserved_of(principal) + dep);
    assert(min_u128(nd.deposit_held, s1.ledger.reserved_of(principal)) == nd.deposit_held);
    assert(s2.ledger.free_of(principal) == s0.ledger.free_of(principal));
    assert(s2.ledger.reserved_of(principal) == s0.ledger.reserved_of(principal));
    assert forall|x: u64| (#[trigger] s2.ledger.free_of(x)) == s0.ledger.free_of(x) by {
        if x != principal {
            assert(s1.ledger.free_of(x) == s0.ledger.free_of(x));
            assert(s2.ledger.free_of(x) == s1.ledger.free_of(x));
        }
    }
    assert forall|x: u64| (#[trigger] s2.ledger.reserved_of(x)) == s0.ledger.reserved_of(x) by {
        if x != principal {
            assert(s1.ledger.reserved_of(x) == s0.ledger.reserved_of(x));
            assert(s2.ledger.reserved_of(x) == s1.ledger.reserved_of(x));
        }
    }
}

/// Deposit neutrality of an announcement's life cycle: announcing and then
/// rejecting the same intent leaves every account's balances exactly where
/// they started, provided no identical announcement was already pending
/// (else the rejection consumes the older twin).
pub proof fn lemma_announcement_deposit_round_trip(
    s0: Registry,
    s1: Registry,
    s2: Registry,
    delegate: u64,
    principal: u64,
    action: Action,
    now: u64,
)
    requires
        s0.wf(),
        s1.wf(),
        !s0.has_announcement(delegate, principal, spec_hash(action)),
        announce_transition(s0, s1, delegate, principal, action, now, Ok(())),
        reject_transition(s1, s2, delegate, principal, spec_hash(action), Ok(())),
    ensures
        forall|x: u64| (#[trigger] s2.ledger.free_of(x)) == s0.ledger.free_of(x),
        forall|x: u64| (#[trigger] s2.ledger.reserved_of(x)) == s0.ledger.reserved_of(x),
{
    let h = spec_hash(action);
    let pc = count_pending_of(s0.announcements@, delegate);
    let adep = spec_announcement_deposit(s0.cfg, pc);
    let na = new_announcement(s0, delegate, principal, action, now);
    lemma_count_pending_bounds(s0.announcements@, delegate);
    lemma_announcement_deposit_in_range(s0.cfg, pc);
    assert(na.deposit_held == adep);
    let i = choose|i: int|
        #[trigger] first_announcement(s1.announcements@, i, delegate, principal, h)
            && s2.announcements@ == s1.announcements@.remove(i) && ledger_released(
            s1.ledger,
            s2.ledger,
            delegate,
            s1.announcements@[i].deposit_held,
        );
    if i < s0.announcements@.len() {
        assert(s1.announcements@[i] == s0.announcements@[i]);
        assert(amatch(s0.announcements@[i], delegate, principal, h));
        assert(s0.has_announcement(delegate, principal, h));
        assert(false);
    }
    assert(s1.announcements@[i] == na);
    assert(s1.ledger.reserved_of(delegate) == s0.ledger.reserved_of(delegate) + adep);
    assert(min_u128(na.deposit_held, s1.ledger.reserved_of(delegate)) == na.deposit_held);
    assert forall|x: u64| (#[trigger] s2.ledger.free_of(x)) == s0.ledger.free_of(x) by {
        if x != delegate {
            assert(s1.ledger.free_of(x) == s0.ledger.free_of(x));
            assert(s2.ledger.free_of(x) == s1.ledger.free_of(x));
        }
    }
    assert forall|x: u64| (#[trigger] s2.ledger.reserved_of(x)) == s0.ledger.reserved_of(x) by {
        if x != delegate {
            assert(s1.ledger.reserved_of(x) == s0.ledger.reserved_of(x));
            assert(s2.ledger.reserved_of(x) == s1.ledger.reserved_of(x));
        }
    }
}

} // verus!
