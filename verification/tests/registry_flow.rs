use delegation::action::Action;
use delegation::action::call_hash;
use delegation::deposit::Config;
use delegation::policy::ProxyType;
use delegation::registry::Error;
use delegation::registry::Registry;

const P: u64 = 1;
const D: u64 = 2;

fn cfg() -> Config {
    Config {
        delegation_deposit_base: 1000,
        delegation_deposit_factor: 33,
        announcement_deposit_base: 500,
        announcement_deposit_factor: 66,
        max_delegations: 32,
        max_pending: 32,
    }
}

fn fresh() -> Registry {
    let mut reg = Registry::new(cfg()).expect("configuration is valid");
    assert_eq!(reg.open_account(P, 1_000_000), Ok(()));
    assert_eq!(reg.open_account(D, 1_000_000), Ok(()));
    reg
}

#[test]
fn invalid_configuration_yields_no_registry() {
    let mut c = cfg();
    c.delegation_deposit_factor = 0;
    assert!(Registry::new(c).is_none());
}

#[test]
fn create_reserves_the_exact_deposit() {
    let mut reg = fresh();
    assert_eq!(reg.create_delegation(P, D, ProxyType::Staking, 0), Ok(()));
    assert_eq!(reg.delegation_count(P), 1);
    assert_eq!(reg.free_balance(P), 1_000_000 - 1000);
    assert_eq!(reg.reserved_balance(P), 1000);
    assert_eq!(reg.create_delegation(P, D, ProxyType::Governance, 0), Ok(()));
    assert_eq!(reg.free_balance(P), 1_000_000 - 1000 - 1033);
    assert_eq!(reg.reserved_balance(P), 1000 + 1033);
}

#[test]
fn duplicate_delegation_is_refused() {
    let mut reg = fresh();
    assert_eq!(reg.create_delegation(P, D, ProxyType::Staking, 0), Ok(()));
    assert_eq!(
        reg.create_delegation(P, D, ProxyType::Staking, 0),
        Err(Error::DuplicateEntry)
    );
    assert_eq!(reg.delegation_count(P), 1);
}

#[test]
fn create_without_funds_is_refused_atomically() {
    let mut reg = Registry::new(cfg()).expect("configuration is valid");
    assert_eq!(reg.open_account(P, 10), Ok(()));
    assert_eq!(
        reg.create_delegation(P, D, ProxyType::Staking, 0),
        Err(Error::InsufficientFunds)
    );
    assert_eq!(reg.delegation_count(P), 0);
    assert_eq!(reg.free_balance(P), 10);
    assert_eq!(reg.reserved_balance(P), 0);
}

#[test]
fn create_for_unknown_account_is_refused() {
    let mut reg = Registry::new(cfg()).expect("configuration is valid");
    assert_eq!(
        reg.create_delegation(P, D, ProxyType::Staking, 0),
        Err(Error::InsufficientFunds)
    );
}

#[test]
fn remove_releases_the_exact_deposit() {
    let mut reg = fresh();
    assert_eq!(reg.create_delegation(P, D, ProxyType::Staking, 0), Ok(()));
    assert_eq!(reg.remove_delegation(P, D, ProxyType::Staking), Ok(()));
    assert_eq!(reg.delegation_count(P), 0);
    assert_eq!(reg.free_balance(P), 1_000_000);
    assert_eq!(reg.reserved_balance(P), 0);
}

#[test]
fn remove_of_absent_delegation_is_not_found() {
    let mut reg = fresh();
    assert_eq!(
        reg.remove_delegation(P, D, ProxyType::Staking),
        Err(Error::NotFound)
    );
}

#[test]
fn thirty_third_delegation_is_refused() {
    let mut reg = fresh();
    for k in 0..32u64 {
        let delegate = 100 + k;
        assert_eq!(reg.create_delegation(P, delegate, ProxyType::Staking, 0), Ok(()));
    }
    assert_eq!(reg.delegation_count(P), 32);
    assert_eq!(
        reg.create_delegation(P, 200, ProxyType::Staking, 0),
        Err(Error::ResourceExhausted)
    );
    assert_eq!(reg.delegation_count(P), 32);
}

#[test]
fn immediate_staking_delegation_authorizes_staking_only() {
    let mut reg = fresh();
    assert_eq!(reg.create_delegation(P, D, ProxyType::Staking, 0), Ok(()));
    assert_eq!(reg.proxy_call(D, P, &Action::BondStake), Ok(()));
    assert_eq!(
        reg.proxy_call(D, P, &Action::TransferFunds),
        Err(Error::PolicyViolation)
    );
}

#[test]
fn proxy_call_without_delegation_is_not_found() {
    let reg = fresh();
    assert_eq!(reg.proxy_call(D, P, &Action::BondStake), Err(Error::NotFound));
}

#[test]
fn proxy_call_on_delayed_delegation_must_announce() {
    let mut reg = fresh();
    assert_eq!(reg.create_delegation(P, D, ProxyType::Staking, 5), Ok(()));
    assert_eq!(
        reg.proxy_call(D, P, &Action::BondStake),
        Err(Error::TimingViolation)
    );
}

#[test]
fn announce_requires_a_delegation() {
    let mut reg = fresh();
    assert_eq!(
        reg.announce(D, P, &Action::CastVote, 100),
        Err(Error::NotFound)
    );
}

#[test]
fn announce_on_zero_delay_delegation_is_a_timing_violation() {
    let mut reg = fresh();
    assert_eq!(reg.create_delegation(P, D, ProxyType::Staking, 0), Ok(()));
    assert_eq!(
        reg.announce(D, P, &Action::BondStake, 100),
        Err(Error::TimingViolation)
    );
}

#[test]
fn announced_governance_action_runs_after_the_delay() {
    let mut reg = fresh();
    assert_eq!(reg.create_delegation(P, D, ProxyType::Governance, 10), Ok(()));
    let action = Action::CastVote;
    assert_eq!(reg.announce(D, P, &action, 100), Ok(()));
    assert_eq!(reg.pending_count(D), 1);
    assert_eq!(reg.free_balance(D), 1_000_000 - 500);
    assert_eq!(reg.reserved_balance(D), 500);
    assert_eq!(
        reg.execute_announcement(D, P, &action, 105),
        Err(Error::TimingViolation)
    );
    assert_eq!(reg.pending_count(D), 1);
    assert_eq!(reg.execute_announcement(D, P, &action, 110), Ok(()));
    assert_eq!(reg.pending_count(D), 0);
    assert_eq!(reg.free_balance(D), 1_000_000);
    assert_eq!(reg.reserved_balance(D), 0);
}

#[test]
fn execute_one_block_early_fails_and_boundary_succeeds() {
    let mut reg = fresh();
    assert_eq!(reg.create_delegation(P, D, ProxyType::Staking, 7), Ok(()));
    let action = Action::BondStake;
    assert_eq!(reg.announce(D, P, &action, 50), Ok(()));
    assert_eq!(
        reg.execute_announcement(D, P, &action, 56),
        Err(Error::TimingViolation)
    );
    assert_eq!(reg.execute_announcement(D, P, &action, 57), Ok(()));
}

#[test]
fn execute_rechecks_the_policy_at_execution_time() {
    let mut reg = fresh();
    assert_eq!(reg.create_delegation(P, D, ProxyType::Governance, 3), Ok(()));
    let action = Action::BondStake;
    assert_eq!(reg.announce(D, P, &action, 10), Ok(()));
    assert_eq!(
        reg.execute_announcement(D, P, &action, 20),
        Err(Error::PolicyViolation)
    );
    assert_eq!(reg.pending_count(D), 1);
}

#[test]
fn execute_of_unannounced_action_is_not_found() {
    let mut reg = fresh();
    assert_eq!(reg.create_delegation(P, D, ProxyType::Governance, 3), Ok(()));
    assert_eq!(
        reg.execute_announcement(D, P, &Action::CastVote, 20),
        Err(Error::NotFound)
    );
}

#[test]
fn reject_returns_the_announcement_deposit() {
    let mut reg = fresh();
    assert_eq!(reg.create_delegation(P, D, ProxyType::Governance, 10), Ok(()));
    let action = Action::SubmitProposal;
    assert_eq!(reg.announce(D, P, &action, 100), Ok(()));
    assert_eq!(reg.reserved_balance(D), 500);
    let h = call_hash(&action);
    assert_eq!(reg.reject_announcement(D, P, h), Ok(()));
    assert_eq!(reg.pending_count(D), 0);
    assert_eq!(reg.free_balance(D), 1_000_000);
    assert_eq!(reg.reserved_balance(D), 0);
}

#[test]
fn reject_of_unknown_announcement_is_not_found() {
    let mut reg = fresh();
    assert_eq!(reg.reject_announcement(D, P, 12345), Err(Error::NotFound));
}

#[test]
fn thirty_third_pending_announcement_is_refused() {
    let mut reg = fresh();
    assert_eq!(reg.create_delegation(P, D, ProxyType::Unrestricted, 1), Ok(()));
    for k in 0..32u64 {
        assert_eq!(reg.announce(D, P, &Action::CastVote, k), Ok(()));
    }
    assert_eq!(reg.pending_count(D), 32);
    assert_eq!(
        reg.announce(D, P, &Action::CastVote, 40),
        Err(Error::ResourceExhausted)
    );
}

#[test]
fn removing_a_middle_delegation_keeps_the_rest() {
    let mut reg = fresh();
    assert_eq!(reg.create_delegation(P, 100, ProxyType::Staking, 0), Ok(()));
    assert_eq!(reg.create_delegation(P, 101, ProxyType::Staking, 0), Ok(()));
    assert_eq!(reg.create_delegation(P, 102, ProxyType::Staking, 0), Ok(()));
    let reserved_before = reg.reserved_balance(P);
    assert_eq!(reg.remove_delegation(P, 101, ProxyType::Staking), Ok(()));
    assert_eq!(reg.delegation_count(P), 2);
    assert_eq!(reg.reserved_balance(P), reserved_before - 1033);
    assert_eq!(reg.proxy_call(100, P, &Action::BondStake), Ok(()));
    assert_eq!(reg.proxy_call(101, P, &Action::BondStake), Err(Error::NotFound));
    assert_eq!(reg.proxy_call(102, P, &Action::BondStake), Ok(()));
}

#[test]
fn principals_do_not_interfere() {
    let mut reg = fresh();
    assert_eq!(reg.create_delegation(P, D, ProxyType::Staking, 0), Ok(()));
    assert_eq!(reg.open_account(3, 5000), Ok(()));
    assert_eq!(reg.create_delegation(3, D, ProxyType::Governance, 0), Ok(()));
    assert_eq!(reg.delegation_count(P), 1);
    assert_eq!(reg.delegation_count(3), 1);
    assert_eq!(reg.proxy_call(D, 3, &Action::CastVote), Ok(()));
    assert_eq!(reg.proxy_call(D, P, &Action::CastVote), Err(Error::PolicyViolation));
    assert_eq!(reg.remove_delegation(3, D, ProxyType::Governance), Ok(()));
    assert_eq!(reg.free_balance(3), 5000);
    assert_eq!(reg.delegation_count(P), 1);
}

#[test]
fn delegate_with_full_authority_may_manage_delegations() {
    let mut reg = fresh();
    assert_eq!(reg.create_delegation(P, D, ProxyType::Unrestricted, 0), Ok(()));
    assert_eq!(reg.proxied_create_delegation(D, P, 9, ProxyType::Staking, 0), Ok(()));
    assert_eq!(reg.delegation_count(P), 2);
    assert_eq!(reg.proxy_call(9, P, &Action::BondStake), Ok(()));
    assert_eq!(
        reg.proxied_remove_delegation(D, P, 9, ProxyType::Staking),
        Ok(())
    );
    assert_eq!(reg.delegation_count(P), 1);
}

#[test]
fn delegate_cannot_widen_its_own_authority() {
    let mut reg = fresh();
    assert_eq!(reg.create_delegation(P, D, ProxyType::NonTransfer, 0), Ok(()));
    assert_eq!(
        reg.proxied_create_delegation(D, P, 9, ProxyType::Unrestricted, 0),
        Err(Error::PolicyViolation)
    );
    assert_eq!(reg.proxied_create_delegation(D, P, 9, ProxyType::Governance, 0), Ok(()));
    assert_eq!(reg.delegation_count(P), 2);
}

#[test]
fn narrow_scope_grants_no_management_authority() {
    let mut reg = fresh();
    assert_eq!(reg.create_delegation(P, D, ProxyType::Staking, 0), Ok(()));
    assert_eq!(
        reg.proxied_create_delegation(D, P, 9, ProxyType::Staking, 0),
        Err(Error::PolicyViolation)
    );
    assert_eq!(
        reg.proxied_remove_delegation(D, P, D, ProxyType::Staking),
        Err(Error::PolicyViolation)
    );
    assert_eq!(reg.delegation_count(P), 1);
}

#[test]
fn delayed_delegation_grants_no_immediate_management() {
    let mut reg = fresh();
    assert_eq!(reg.create_delegation(P, D, ProxyType::Unrestricted, 4), Ok(()));
    assert_eq!(
        reg.proxied_create_delegation(D, P, 9, ProxyType::Staking, 0),
        Err(Error::PolicyViolation)
    );
}

#[test]
fn announcement_deposit_grows_with_pending_count() {
    let mut reg = fresh();
    assert_eq!(reg.create_delegation(P, D, ProxyType::Unrestricted, 1), Ok(()));
    assert_eq!(reg.announce(D, P, &Action::CastVote, 1), Ok(()));
    assert_eq!(reg.reserved_balance(D), 500);
    assert_eq!(reg.announce(D, P, &Action::BondStake, 2), Ok(()));
    assert_eq!(reg.reserved_balance(D), 500 + 566);
}
