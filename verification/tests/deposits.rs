use delegation::deposit::Config;
use delegation::deposit::announcement_deposit;
use delegation::deposit::delegation_deposit;

fn cfg() -> Config {
    Config {
        delegation_deposit_base: 1000,
        delegation_deposit_factor: 33,
        announcement_deposit_base: 1000,
        announcement_deposit_factor: 66,
        max_delegations: 32,
        max_pending: 32,
    }
}

#[test]
fn valid_configuration_is_accepted() {
    assert!(cfg().is_valid());
}

#[test]
fn zero_factor_is_rejected() {
    let mut c = cfg();
    c.delegation_deposit_factor = 0;
    assert!(!c.is_valid());
    let mut c = cfg();
    c.announcement_deposit_factor = 0;
    assert!(!c.is_valid());
}

#[test]
fn overflowing_deposit_bound_is_rejected() {
    let mut c = cfg();
    c.delegation_deposit_base = u128::MAX;
    assert!(!c.is_valid());
    let mut c = cfg();
    c.announcement_deposit_factor = u128::MAX / 8;
    assert!(!c.is_valid());
}

#[test]
fn delegation_deposit_exact_values() {
    let c = cfg();
    assert_eq!(delegation_deposit(&c, 0), 1000);
    assert_eq!(delegation_deposit(&c, 1), 1033);
    assert_eq!(delegation_deposit(&c, 31), 1000 + 33 * 31);
}

#[test]
fn announcement_deposit_exact_values() {
    let c = cfg();
    assert_eq!(announcement_deposit(&c, 0), 1000);
    assert_eq!(announcement_deposit(&c, 1), 1066);
    assert_eq!(announcement_deposit(&c, 31), 1000 + 66 * 31);
}

#[test]
fn deposits_strictly_increase_with_count() {
    let c = cfg();
    for k in 0..31 {
        assert!(delegation_deposit(&c, k) < delegation_deposit(&c, k + 1));
        assert!(announcement_deposit(&c, k) < announcement_deposit(&c, k + 1));
    }
}
