//! The action catalog and its classifier.
//!
//! Every action the host system can carry is listed here and mapped to
//! exactly one semantic category. The catalog is a closed enumeration, so an
//! action left out of the classifier is a build-time error, never a silent
//! default-allow.

use vstd::prelude::*;

verus! {

/// Semantic categories of actions. Scope decisions are made over categories,
/// never over individual actions.
#[derive(Clone, Copy, Debug, PartialEq, Eq, Structural)]
pub enum Category {
    /// Moves funds out of the principal's control.
    Transfer,
    /// Bonding, nominating and other staking operations.
    Staking,
    /// Referenda: voting and proposing.
    Governance,
    /// Collective motions and membership business.
    CouncilMembership,
    /// Spending from the common treasury.
    Treasury,
    /// Tips, bounties and other dispute-resolution reports.
    DisputeResolution,
    /// Passing judgement on a registered identity.
    IdentityJudgement,
    /// Messages to an external bridge.
    BridgeOperation,
    /// Managing the delegation set itself.
    ProxyManagement,
    /// Known, benign administrative business.
    Administrative,
    /// A batch of further actions.
    Composite,
    /// Catch-all for actions no classifier arm recognises; no restricted
    /// scope ever permits it.
    Other,
}

/// A concrete action a delegate may submit on a principal's behalf.
#[derive(Debug, PartialEq, Eq)]
pub enum Action {
    /// Transfer funds to another account.
    TransferFunds,
    /// Send a message through an external bridge.
    BridgeMessage,
    /// Bond funds for staking.
    BondStake,
    /// Nominate validators.
    NominateValidators,
    /// Vote in a referendum.
    CastVote,
    /// Propose a referendum.
    SubmitProposal,
    /// Move or vote in a collective.
    CouncilMotion,
    /// Propose or approve a treasury spend.
    TreasurySpend,
    /// Report a tip or a bounty.
    ReportTip,
    /// Provide a judgement on a registered identity.
    ProvideJudgement,
    /// Register or update the caller's own identity.
    RegisterIdentity,
    /// Add or remove a delegation.
    ManageDelegates,
    /// A bare administrative remark.
    SystemRemark,
    /// An action the catalog does not recognise.
    Unclassified,
    /// A composite action carrying a sequence of sub-actions.
    Batch(Vec<Action>),
}

/// The category an action belongs to. Total over the catalog: every variant
/// has exactly one arm.
pub open spec fn category_of(a: Action) -> Category {
    match a {
        Action::TransferFunds => Category::Transfer,
        Action::BridgeMessage => Category::BridgeOperation,
        Action::BondStake => Category::Staking,
        Action::NominateValidators => Category::Staking,
        Action::CastVote => Category::Governance,
        Action::SubmitProposal => Category::Governance,
        Action::CouncilMotion => Category::CouncilMembership,
        Action::TreasurySpend => Category::Treasury,
        Action::ReportTip => Category::DisputeResolution,
        Action::ProvideJudgement => Category::IdentityJudgement,
        Action::RegisterIdentity => Category::Administrative,
        Action::ManageDelegates => Category::ProxyManagement,
        Action::SystemRemark => Category::Administrative,
        Action::Unclassified => Category::Other,
        Action::Batch(_) => Category::Composite,
    }
}

/// Classifies an action: the executable counterpart of [`category_of`].
pub fn classify(a: &Action) -> (c: Category)
    ensures
        c == category_of(*a),
{
    match a {
        Action::TransferFunds => Category::Transfer,
        Action::BridgeMessage => Category::BridgeOperation,
        Action::BondStake => Category::Staking,
        Action::NominateValidators => Category::Staking,
        Action::CastVote => Category::Governance,
        Action::SubmitProposal => Category::Governance,
        Action::CouncilMotion => Category::CouncilMembership,
        Action::TreasurySpend => Category::Treasury,
        Action::ReportTip => Category::DisputeResolution,
        Action::ProvideJudgement => Category::IdentityJudgement,
        Action::RegisterIdentity => Category::Administrative,
        Action::ManageDelegates => Category::ProxyManagement,
        Action::SystemRemark => Category::Administrative,
        Action::Unclassified => Category::Other,
        Action::Batch(_) => Category::Composite,
    }
}

/// One folding step of the action hash: multiply by a prime, add the next
/// word, modulo the word size.
pub open spec fn spec_combine(acc: u64, h: u64) -> u64 {
    (((acc * 1099511628211) + h) % 0x1_0000_0000_0000_0000) as u64
}

/// Folds the hashes of a sequence of actions into an accumulator, front to
/// back.
pub open spec fn hash_seq(s: Seq<Action>, acc: u64) -> u64
    decreases s, 0int,
{
    if s.len() == 0 {
        acc
    } else {
        hash_seq(s.drop_first(), spec_combine(acc, spec_hash(s[0])))
    }
}

/// A structural hash identifying an action in an announcement: each leaf
/// carries a fixed tag, a batch folds its sub-actions over a seed.
pub open spec fn spec_hash(a: Action) -> u64
    decreases a, 1int,
{
    match a {
        Action::TransferFunds => 1,
        Action::BridgeMessage => 2,
        Action::BondStake => 3,
        Action::NominateValidators => 4,
        Action::CastVote => 5,
        Action::SubmitProposal => 6,
        Action::CouncilMotion => 7,
        Action::TreasurySpend => 8,
        Action::ReportTip => 9,
        Action::ProvideJudgement => 10,
        Action::RegisterIdentity => 11,
        Action::ManageDelegates => 12,
        Action::SystemRemark => 13,
        Action::Unclassified => 14,
        Action::Batch(inner) => hash_seq(inner@, 9029),
    }
}

fn combine(acc: u64, h: u64) -> (r: u64)
    ensures
        r == spec_combine(acc, h),
{
    proof {
        assert((acc as u128) * 1099511628211u128 <= (u64::MAX as u128) * 1099511628211u128)
            by (nonlinear_arith)
            requires
                acc <= u64::MAX,
        ;
    }
    ((((acc as u128) * 1099511628211u128) + (h as u128)) % 0x1_0000_0000_0000_0000u128) as u64
}

/// Computes [`spec_hash`] on machine integers.
#[verifier::loop_isolation(false)]
pub fn call_hash(a: &Action) -> (h: u64)
    ensures
        h == spec_hash(*a),
    decreases *a, 1int,
{
    match a {
        Action::TransferFunds => 1,
        Action::BridgeMessage => 2,
        Action::BondStake => 3,
        Action::NominateValidators => 4,
        Action::CastVote => 5,
        Action::SubmitProposal => 6,
        Action::CouncilMotion => 7,
        Action::TreasurySpend => 8,
        Action::ReportTip => 9,
        Action::ProvideJudgement => 10,
        Action::RegisterIdentity => 11,
        Action::ManageDelegates => 12,
        Action::SystemRemark => 13,
        Action::Unclassified => 14,
        Action::Batch(inner) => {
            let n = inner.len();
            let mut acc: u64 = 9029;
            let mut j: usize = 0;
            proof {
                assert(inner@.skip(0) =~= inner@);
            }
            while j < n
                invariant
                    j <= n,
                    hash_seq(inner@, 9029) == hash_seq(inner@.skip(j as int), acc),
                decreases n - j,
            {
                let hj = call_hash(&inner[j]);
                proof {
                    assert(inner@.skip(j as int).drop_first() =~= inner@.skip(j as int + 1));
                    assert(inner@.skip(j as int)[0] == inner@[j as int]);
                }
                acc = combine(acc, hj);
                j += 1;
            }
            proof {
                assert(inner@.skip(n as int).len() == 0);
            }
            acc
        },
    }
}

} // verus!
