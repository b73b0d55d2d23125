//! The scope policy: which actions each delegation scope permits, and the
//! partial order over scopes used to refuse privilege escalation.

use vstd::prelude::*;

use crate::action::Action;
use crate::action::Category;
use crate::action::category_of;
use crate::action::classify;

verus! {

/// The kinds of delegation permitted: a closed catalog of permission scopes.
/// Each variant denotes a fixed predicate over action categories.
#[derive(Clone, Copy, Debug, PartialEq, Eq, Structural)]
pub enum ProxyType {
    /// Permits every action.
    Unrestricted,
    /// Permits everything but moving funds, whether directly or through a
    /// bridge.
    NonTransfer,
    /// Referenda, collectives, treasury and dispute-resolution business.
    Governance,
    /// Staking business only.
    Staking,
    /// Providing identity judgements only.
    IdentityJudgement,
    /// Reserved scope: no action is currently delegable under it.
    BridgeOperation,
}

/// Whether a scope permits a leaf action of the given category. Composite
/// actions never reach this table: they are taken apart by [`permits`].
pub open spec fn category_allowed(s: ProxyType, c: Category) -> bool {
    match s {
        ProxyType::Unrestricted => true,
        ProxyType::NonTransfer => match c {
            Category::Transfer => false,
            Category::BridgeOperation => false,
            Category::Other => false,
            Category::Composite => false,
            _ => true,
        },
        ProxyType::Governance => match c {
            Category::Governance => true,
            Category::CouncilMembership => true,
            Category::Treasury => true,
            Category::DisputeResolution => true,
            _ => false,
        },
        ProxyType::Staking => c == Category::Staking,
        ProxyType::IdentityJudgement => c == Category::IdentityJudgement,
        ProxyType::BridgeOperation => false,
    }
}

/// Whether scope `s` permits action `a`.
///
/// A composite action is permitted only when every one of its sub-actions is
/// permitted, so a batch can never smuggle a denied action past a
/// restrictive scope.
pub open spec fn permits(s: ProxyType, a: Action) -> bool
    decreases a,
{
    match a {
        Action::Batch(inner) => match s {
            ProxyType::Unrestricted => true,
            ProxyType::BridgeOperation => false,
            _ => forall|i: int| 0 <= i < inner@.len() ==> permits(s, #[trigger] inner@[i]),
        },
        _ => category_allowed(s, category_of(a)),
    }
}

/// The superset lattice over scopes: `superset_of(a, b)` holds when the
/// policy treats every action permitted under `b` as permitted under `a`.
/// `Unrestricted` is top; `NonTransfer` sits above every other scope; the
/// remaining scopes are pairwise incomparable.
pub open spec fn superset_of(a: ProxyType, b: ProxyType) -> bool {
    if a == b {
        true
    } else {
        match (a, b) {
            (ProxyType::Unrestricted, _) => true,
            (_, ProxyType::Unrestricted) => false,
            (ProxyType::NonTransfer, _) => true,
            _ => false,
        }
    }
}

impl ProxyType {
    /// Decides whether this scope permits the action: the executable
    /// counterpart of [`permits`].
    #[verifier::loop_isolation(false)]
    pub fn filter(&self, c: &Action) -> (r: bool)
        ensures
            r == permits(*self, *c),
        decreases *c,
    {
        match c {
            Action::Batch(inner) => match self {
                ProxyType::Unrestricted => true,
                ProxyType::BridgeOperation => false,
                _ => {
                    let n = inner.len();
                    let mut j: usize = 0;
                    while j < n
                        invariant
                            j <= n,
                            forall|k: int| 0 <= k < j ==> permits(*self, #[trigger] inner@[k]),
                        decreases n - j,
                    {
                        if !self.filter(&inner[j]) {
                            return false;
                        }
                        j += 1;
                    }
                    true
                },
            },
            _ => {
                let cat = classify(c);
                match self {
                    ProxyType::Unrestricted => true,
                    ProxyType::NonTransfer => !matches!(
                        cat,
                        Category::Transfer
                            | Category::BridgeOperation
                            | Category::Other
                            | Category::Composite
                    ),
                    ProxyType::Governance => matches!(
                        cat,
                        Category::Governance
                            | Category::CouncilMembership
                            | Category::Treasury
                            | Category::DisputeResolution
                    ),
                    ProxyType::Staking => matches!(cat, Category::Staking),
                    ProxyType::IdentityJudgement => matches!(cat, Category::IdentityJudgement),
                    ProxyType::BridgeOperation => false,
                }
            },
        }
    }

    /// Decides the superset lattice: the executable counterpart of
    /// [`superset_of`].
    pub fn is_superset(&self, o: &Self) -> (r: bool)
        ensures
            r == superset_of(*self, *o),
    {
        if self == o {
            true
        } else {
            match (self, o) {
                (ProxyType::Unrestricted, _) => true,
                (_, ProxyType::Unrestricted) => false,
                (ProxyType::NonTransfer, _) => true,
                _ => false,
            }
        }
    }
}

impl Default for ProxyType {
    /// The scope assumed when none is named: full authority.
    fn default() -> (d: Self)
        ensures
            d == ProxyType::Unrestricted,
    {
        ProxyType::Unrestricted
    }
}

/// The unrestricted scope permits every action.
pub proof fn lemma_unrestricted_permits_all(a: Action)
    ensures
        permits(ProxyType::Unrestricted, a),
{
}

/// No restricted scope degenerates to allow-all: every scope other than
/// `Unrestricted` denies at least one action.
pub proof fn lemma_restricted_denies_something(s: ProxyType)
    requires
        s != ProxyType::Unrestricted,
    ensures
        exists|a: Action| !#[trigger] permits(s, a),
{
    assert(!permits(s, Action::TransferFunds));
}

/// The superset lattice is reflexive.
pub proof fn lemma_superset_reflexive(s: ProxyType)
    ensures
        superset_of(s, s),
{
}

/// The superset lattice is antisymmetric.
pub proof fn lemma_superset_antisymmetric(a: ProxyType, b: ProxyType)
    requires
        superset_of(a, b),
        superset_of(b, a),
    ensures
        a == b,
{
}

/// The superset lattice is transitive.
pub proof fn lemma_superset_transitive(a: ProxyType, b: ProxyType, c: ProxyType)
    requires
        superset_of(a, b),
        superset_of(b, c),
    ensures
        superset_of(a, c),
{
}

/// Soundness of the lattice against the decision table: when `a` is recorded
/// as a superset of `b`, every action `b` permits is indeed permitted by `a`.
pub proof fn lemma_superset_sound(a: ProxyType, b: ProxyType, act: Action)
    requires
        superset_of(a, b),
        permits(b, act),
    ensures
        permits(a, act),
    decreases act,
{
    match act {
        Action::Batch(inner) => {
            if a != ProxyType::Unrestricted && a != ProxyType::BridgeOperation {
                assert forall|i: int| 0 <= i < inner@.len() implies permits(
                    a,
                    #[trigger] inner@[i],
                ) by {
                    lemma_superset_sound(a, b, inner@[i]);
                }
            }
        },
        _ => {},
    }
}

/// Anti-smuggling: a composite action containing even one sub-action denied
/// by a scope is denied as a whole, however many permitted sub-actions it
/// also contains.
pub proof fn lemma_no_smuggling(s: ProxyType, inner: Vec<Action>, i: int)
    requires
        0 <= i < inner@.len(),
        !permits(s, inner@[i]),
    ensures
        !permits(s, Action::Batch(inner)),
{
    match s {
        ProxyType::Unrestricted => {
            assert(permits(s, inner@[i]));
        },
        ProxyType::BridgeOperation => {
            assert(!permits(s, Action::Batch(inner)));
        },
        _ => {
            if permits(s, Action::Batch(inner)) {
                assert((Action::Batch(inner))->0 == inner);
                assert(permits(s, (Action::Batch(inner))->0@[i]));
                assert(permits(s, inner@[i]));
            }
        },
    }
}

} // verus!
