use debenture::{Address, Error, TokenCustody};

#[test]
fn deposits_are_kept_per_user_in_order() {
    let alice = Address::new(0, 1);
    let bob = Address::new(0, 2);
    let mut custody = TokenCustody::new();
    assert_eq!(custody.deposit_bond(alice, alice, 7), Ok(()));
    assert_eq!(custody.deposit_bond(bob, bob, 8), Ok(()));
    assert_eq!(custody.deposit_bond(alice, alice, 9), Ok(()));
    assert_eq!(custody.get_total_bonds_deposited(alice), 2);
    assert_eq!(custody.get_total_bonds_deposited(bob), 1);
    assert_eq!(custody.get_bonds_position_custody(alice), vec![7, 9]);
    assert_eq!(custody.get_bonds_position_custody(bob), vec![8]);
}

#[test]
fn empty_position_for_unknown_user() {
    let custody = TokenCustody::new();
    assert_eq!(custody.get_total_bonds_deposited(Address::new(5, 5)), 0);
    assert!(custody.get_bonds_position_custody(Address::new(5, 5)).is_empty());
}

#[test]
fn deposit_for_someone_else_is_refused() {
    let alice = Address::new(0, 1);
    let bob = Address::new(0, 2);
    let mut custody = TokenCustody::new();
    assert_eq!(custody.deposit_bond(bob, alice, 7), Err(Error::Unauthorized));
    assert_eq!(custody.get_total_bonds_deposited(alice), 0);
}
