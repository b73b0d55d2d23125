use delegation::action::Action;
use delegation::action::Category;
use delegation::action::call_hash;
use delegation::action::classify;
use delegation::policy::ProxyType;

fn all_scopes() -> Vec<ProxyType> {
    vec![
        ProxyType::Unrestricted,
        ProxyType::NonTransfer,
        ProxyType::Governance,
        ProxyType::Staking,
        ProxyType::IdentityJudgement,
        ProxyType::BridgeOperation,
    ]
}

fn sample_actions() -> Vec<Action> {
    vec![
        Action::TransferFunds,
        Action::BridgeMessage,
        Action::BondStake,
        Action::NominateValidators,
        Action::CastVote,
        Action::SubmitProposal,
        Action::CouncilMotion,
        Action::TreasurySpend,
        Action::ReportTip,
        Action::ProvideJudgement,
        Action::RegisterIdentity,
        Action::ManageDelegates,
        Action::SystemRemark,
        Action::Unclassified,
        Action::Batch(vec![Action::BondStake, Action::CastVote]),
    ]
}

#[test]
fn unrestricted_permits_every_action() {
    for a in sample_actions() {
        assert!(ProxyType::Unrestricted.filter(&a));
    }
}

#[test]
fn every_restricted_scope_denies_transfer() {
    for s in all_scopes() {
        if s != ProxyType::Unrestricted {
            assert!(!s.filter(&Action::TransferFunds));
        }
    }
}

#[test]
fn non_transfer_decision_table() {
    let s = ProxyType::NonTransfer;
    assert!(!s.filter(&Action::TransferFunds));
    assert!(!s.filter(&Action::BridgeMessage));
    assert!(!s.filter(&Action::Unclassified));
    assert!(s.filter(&Action::BondStake));
    assert!(s.filter(&Action::CastVote));
    assert!(s.filter(&Action::CouncilMotion));
    assert!(s.filter(&Action::TreasurySpend));
    assert!(s.filter(&Action::ReportTip));
    assert!(s.filter(&Action::ProvideJudgement));
    assert!(s.filter(&Action::RegisterIdentity));
    assert!(s.filter(&Action::ManageDelegates));
    assert!(s.filter(&Action::SystemRemark));
}

#[test]
fn governance_decision_table() {
    let s = ProxyType::Governance;
    assert!(s.filter(&Action::CastVote));
    assert!(s.filter(&Action::SubmitProposal));
    assert!(s.filter(&Action::CouncilMotion));
    assert!(s.filter(&Action::TreasurySpend));
    assert!(s.filter(&Action::ReportTip));
    assert!(!s.filter(&Action::BondStake));
    assert!(!s.filter(&Action::TransferFunds));
    assert!(!s.filter(&Action::ProvideJudgement));
    assert!(!s.filter(&Action::SystemRemark));
}

#[test]
fn staking_decision_table() {
    let s = ProxyType::Staking;
    assert!(s.filter(&Action::BondStake));
    assert!(s.filter(&Action::NominateValidators));
    assert!(!s.filter(&Action::CastVote));
    assert!(!s.filter(&Action::TransferFunds));
    assert!(!s.filter(&Action::SystemRemark));
}

#[test]
fn identity_judgement_decision_table() {
    let s = ProxyType::IdentityJudgement;
    assert!(s.filter(&Action::ProvideJudgement));
    assert!(!s.filter(&Action::RegisterIdentity));
    assert!(!s.filter(&Action::CastVote));
    assert!(!s.filter(&Action::TransferFunds));
}

#[test]
fn bridge_operation_scope_denies_everything() {
    let s = ProxyType::BridgeOperation;
    for a in sample_actions() {
        assert!(!s.filter(&a));
    }
    assert!(!s.filter(&Action::Batch(vec![])));
}

#[test]
fn batch_of_permitted_actions_is_permitted() {
    let b = Action::Batch(vec![Action::BondStake, Action::NominateValidators]);
    assert!(ProxyType::Staking.filter(&b));
    let g = Action::Batch(vec![Action::CastVote, Action::TreasurySpend]);
    assert!(ProxyType::Governance.filter(&g));
}

#[test]
fn batch_cannot_smuggle_a_denied_action() {
    let b = Action::Batch(vec![
        Action::BondStake,
        Action::NominateValidators,
        Action::TransferFunds,
        Action::BondStake,
    ]);
    assert!(!ProxyType::Staking.filter(&b));
    assert!(!ProxyType::NonTransfer.filter(&b));
    assert!(ProxyType::Unrestricted.filter(&b));
}

#[test]
fn nested_batch_cannot_smuggle_either() {
    let inner = Action::Batch(vec![Action::CastVote, Action::TransferFunds]);
    let outer = Action::Batch(vec![Action::CastVote, inner]);
    assert!(!ProxyType::Governance.filter(&outer));
    assert!(!ProxyType::NonTransfer.filter(&outer));
}

#[test]
fn identity_judgement_batch_must_be_pure() {
    let pure = Action::Batch(vec![Action::ProvideJudgement, Action::ProvideJudgement]);
    assert!(ProxyType::IdentityJudgement.filter(&pure));
    let mixed = Action::Batch(vec![Action::ProvideJudgement, Action::CastVote]);
    assert!(!ProxyType::IdentityJudgement.filter(&mixed));
}

#[test]
fn empty_batch_is_harmless() {
    let e = Action::Batch(vec![]);
    assert!(ProxyType::Staking.filter(&e));
    assert!(ProxyType::Governance.filter(&e));
    assert!(!ProxyType::BridgeOperation.filter(&e));
}

#[test]
fn superset_is_reflexive() {
    for s in all_scopes() {
        assert!(s.is_superset(&s));
    }
}

#[test]
fn unrestricted_is_top_of_the_lattice() {
    for s in all_scopes() {
        assert!(ProxyType::Unrestricted.is_superset(&s));
        if s != ProxyType::Unrestricted {
            assert!(!s.is_superset(&ProxyType::Unrestricted));
        }
    }
}

#[test]
fn non_transfer_covers_every_scope_but_unrestricted() {
    for s in all_scopes() {
        if s != ProxyType::Unrestricted {
            assert!(ProxyType::NonTransfer.is_superset(&s));
        }
    }
}

#[test]
fn narrow_scopes_are_pairwise_incomparable() {
    let narrow = [
        ProxyType::Governance,
        ProxyType::Staking,
        ProxyType::IdentityJudgement,
        ProxyType::BridgeOperation,
    ];
    for a in narrow {
        for b in narrow {
            if a != b {
                assert!(!a.is_superset(&b));
            }
        }
    }
}

#[test]
fn superset_is_antisymmetric_on_all_pairs() {
    for a in all_scopes() {
        for b in all_scopes() {
            if a.is_superset(&b) && b.is_superset(&a) {
                assert_eq!(a, b);
            }
        }
    }
}

#[test]
fn superset_is_transitive_on_all_triples() {
    for a in all_scopes() {
        for b in all_scopes() {
            for c in all_scopes() {
                if a.is_superset(&b) && b.is_superset(&c) {
                    assert!(a.is_superset(&c));
                }
            }
        }
    }
}

#[test]
fn default_scope_is_unrestricted() {
    assert_eq!(ProxyType::default(), ProxyType::Unrestricted);
}

#[test]
fn classifier_is_total_and_exact() {
    assert_eq!(classify(&Action::TransferFunds), Category::Transfer);
    assert_eq!(classify(&Action::BridgeMessage), Category::BridgeOperation);
    assert_eq!(classify(&Action::BondStake), Category::Staking);
    assert_eq!(classify(&Action::NominateValidators), Category::Staking);
    assert_eq!(classify(&Action::CastVote), Category::Governance);
    assert_eq!(classify(&Action::SubmitProposal), Category::Governance);
    assert_eq!(classify(&Action::CouncilMotion), Category::CouncilMembership);
    assert_eq!(classify(&Action::TreasurySpend), Category::Treasury);
    assert_eq!(classify(&Action::ReportTip), Category::DisputeResolution);
    assert_eq!(classify(&Action::ProvideJudgement), Category::IdentityJudgement);
    assert_eq!(classify(&Action::RegisterIdentity), Category::Administrative);
    assert_eq!(classify(&Action::ManageDelegates), Category::ProxyManagement);
    assert_eq!(classify(&Action::SystemRemark), Category::Administrative);
    assert_eq!(classify(&Action::Unclassified), Category::Other);
    assert_eq!(classify(&Action::Batch(vec![])), Category::Composite);
}

#[test]
fn action_hash_tells_actions_apart() {
    assert_eq!(call_hash(&Action::BondStake), call_hash(&Action::BondStake));
    assert_ne!(call_hash(&Action::BondStake), call_hash(&Action::CastVote));
    let b1 = Action::Batch(vec![Action::BondStake, Action::CastVote]);
    let b2 = Action::Batch(vec![Action::CastVote, Action::BondStake]);
    let b3 = Action::Batch(vec![Action::BondStake, Action::CastVote]);
    assert_eq!(call_hash(&b1), call_hash(&b3));
    assert_ne!(call_hash(&b1), call_hash(&b2));
    assert_ne!(call_hash(&b1), call_hash(&Action::Batch(vec![])));
}
