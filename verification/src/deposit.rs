//! Storage-deposit accounting: the refundable amounts reserved when a
//! delegation or a pending announcement is registered.

use vstd::prelude::*;

verus! {

/// Deployment parameters of one registry instance: deposit bases and
/// factors, and the hard caps on delegations and pending announcements.
#[derive(Clone, Copy, Debug)]
pub struct Config {
    /// Flat part of the deposit for one delegation: the cost of one storage
    /// item.
    pub delegation_deposit_base: u128,
    /// Per-existing-entry part of the deposit for one delegation.
    pub delegation_deposit_factor: u128,
    /// Flat part of the deposit for one pending announcement.
    pub announcement_deposit_base: u128,
    /// Per-existing-entry part of the deposit for one pending announcement.
    pub announcement_deposit_factor: u128,
    /// Most delegations one principal may hold at once.
    pub max_delegations: u32,
    /// Most pending announcements one delegate may hold at once.
    pub max_pending: u32,
}

impl Config {
    /// A well-formed configuration: both factors are positive, and no
    /// deposit that the caps admit can overflow the balance type.
    pub open spec fn wf(self) -> bool {
        &&& self.delegation_deposit_factor >= 1
        &&& self.announcement_deposit_factor >= 1
        &&& self.delegation_deposit_base + self.delegation_deposit_factor
            * self.max_delegations <= u128::MAX
        &&& self.announcement_deposit_base + self.announcement_deposit_factor
            * self.max_pending <= u128::MAX
    }

    /// Runtime check of [`Config::wf`], for callers outside verified code.
    pub fn is_valid(&self) -> (b: bool)
        ensures
            b == self.wf(),
    {
        let df = self.delegation_deposit_factor.checked_mul(self.max_delegations as u128);
        let af = self.announcement_deposit_factor.checked_mul(self.max_pending as u128);
        self.delegation_deposit_factor >= 1 && self.announcement_deposit_factor >= 1
            && match df {
            Some(d) => self.delegation_deposit_base.checked_add(d).is_some(),
            None => false,
        }
            && match af {
            Some(a) => self.announcement_deposit_base.checked_add(a).is_some(),
            None => false,
        }
    }
}

/// The deposit owed for registering one more delegation when
/// `count_existing` delegations already stand.
pub open spec fn spec_delegation_deposit(cfg: Config, count_existing: int) -> int {
    cfg.delegation_deposit_base + cfg.delegation_deposit_factor * count_existing
}

/// The deposit owed for registering one more announcement when
/// `count_existing` announcements are already pending.
pub open spec fn spec_announcement_deposit(cfg: Config, count_existing: int) -> int {
    cfg.announcement_deposit_base + cfg.announcement_deposit_factor * count_existing
}

/// Multiplying by a factor keeps order: helper for the deposit bounds.
proof fn lemma_mul_le(f: int, a: int, b: int)
    by (nonlinear_arith)
    requires
        f >= 0,
        0 <= a <= b,
    ensures
        f * a <= f * b,
{
}

/// Computes [`spec_delegation_deposit`] on machine integers.
pub fn delegation_deposit(cfg: &Config, count_existing: usize) -> (d: u128)
    requires
        cfg.wf(),
        count_existing <= cfg.max_delegations,
    ensures
        d == spec_delegation_deposit(*cfg, count_existing as int),
{
    proof {
        lemma_mul_le(
            cfg.delegation_deposit_factor as int,
            count_existing as int,
            cfg.max_delegations as int,
        );
    }
    cfg.delegation_deposit_base + cfg.delegation_deposit_factor * (count_existing as u128)
}

/// Computes [`spec_announcement_deposit`] on machine integers.
pub fn announcement_deposit(cfg: &Config, count_existing: usize) -> (d: u128)
    requires
        cfg.wf(),
        count_existing <= cfg.max_pending,
    ensures
        d == spec_announcement_deposit(*cfg, count_existing as int),
{
    proof {
        lemma_mul_le(
            cfg.announcement_deposit_factor as int,
            count_existing as int,
            cfg.max_pending as int,
        );
    }
    cfg.announcement_deposit_base + cfg.announcement_deposit_factor * (count_existing as u128)
}

/// Any delegation deposit the caps admit fits the balance type.
pub proof fn lemma_delegation_deposit_in_range(cfg: Config, c: int)
    requires
        cfg.wf(),
        0 <= c <= cfg.max_delegations,
    ensures
        0 <= spec_delegation_deposit(cfg, c) <= u128::MAX,
{
    assert(0 <= cfg.delegation_deposit_factor * c <= cfg.delegation_deposit_factor
        * cfg.max_delegations)
        by (nonlinear_arith)
        requires
            cfg.delegation_deposit_factor >= 1,
            0 <= c <= cfg.max_delegations,
    ;
}

/// Any announcement deposit the caps admit fits the balance type.
pub proof fn lemma_announcement_deposit_in_range(cfg: Config, c: int)
    requires
        cfg.wf(),
        0 <= c <= cfg.max_pending,
    ensures
        0 <= spec_announcement_deposit(cfg, c) <= u128::MAX,
{
    assert(0 <= cfg.announcement_deposit_factor * c <= cfg.announcement_deposit_factor
        * cfg.max_pending)
        by (nonlinear_arith)
        requires
            cfg.announcement_deposit_factor >= 1,
            0 <= c <= cfg.max_pending,
    ;
}

/// Deposit monotonicity: with a well-formed configuration the delegation
/// deposit is strictly increasing in the existing-entry count.
pub proof fn lemma_delegation_deposit_increasing(cfg: Config, c1: int, c2: int)
    requires
        cfg.wf(),
        0 <= c1 < c2,
    ensures
        spec_delegation_deposit(cfg, c1) < spec_delegation_deposit(cfg, c2),
{
    assert(cfg.delegation_deposit_factor * c1 < cfg.delegation_deposit_factor * c2)
        by (nonlinear_arith)
        requires
            cfg.delegation_deposit_factor >= 1,
            0 <= c1 < c2,
    ;
}

/// Deposit monotonicity: with a well-formed configuration the announcement
/// deposit is strictly increasing in the existing-entry count.
pub proof fn lemma_announcement_deposit_increasing(cfg: Config, c1: int, c2: int)
    requires
        cfg.wf(),
        0 <= c1 < c2,
    ensures
        spec_announcement_deposit(cfg, c1) < spec_announcement_deposit(cfg, c2),
{
    assert(cfg.announcement_deposit_factor * c1 < cfg.announcement_deposit_factor * c2)
        by (nonlinear_arith)
        requires
            cfg.announcement_deposit_factor >= 1,
            0 <= c1 < c2,
    ;
}

} // verus!
