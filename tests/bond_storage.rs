use debenture::{Address, Bond, BondStatus, BondStorage, Error, Issuer};

fn deploy_contract() -> (Address, BondStorage) {
    let manager = Address::new(0, 0x4d41_4e41_4745_52);
    (manager, BondStorage::initialize(manager))
}

#[test]
fn test_initialization() {
    let (_manager, storage) = deploy_contract();
    assert!(storage.bond_info().is_none());
    assert!(storage.issuer_info().is_none());
    assert!(storage.institution().is_none());
}

#[test]
fn test_set_and_get_issuer() {
    let (manager, mut storage) = deploy_contract();
    let issuer_institution = Address::new(7, 11);
    let issuer_data = Issuer {
        institution: issuer_institution,
        cnpj: String::from("12345678901234"),
        lei: String::from("LEI12345"),
    };
    assert_eq!(storage.set_issuer(manager, issuer_data.clone()), Ok(()));

    let retrieved_issuer = storage.issuer_info().unwrap();
    assert_eq!(retrieved_issuer.institution, issuer_institution);
    assert_eq!(retrieved_issuer.cnpj, issuer_data.cnpj);
    assert_eq!(retrieved_issuer.lei, issuer_data.lei);
    assert_eq!(storage.institution(), Some(issuer_institution));
    assert_eq!(storage.cnpj(), Some(String::from("12345678901234")));
    assert_eq!(storage.lei(), Some(String::from("LEI12345")));
}

#[test]
fn test_set_and_get_bond() {
    let (manager, mut storage) = deploy_contract();
    let currency_address = Address::new(3, 5);
    let bond_data = Bond {
        issue_number: 1,
        currency: currency_address,
        denomination: 1000,
        interest_rate: 500,
        frequency: 2,
        issue_date: 1678886400,
        maturity_date: 1710499200,
        bond_status: BondStatus::Offered,
    };
    assert_eq!(storage.set_bond(manager, bond_data), Ok(()));

    let retrieved_bond = storage.bond_info().unwrap();
    assert_eq!(retrieved_bond.currency, currency_address);
    assert_eq!(retrieved_bond.denomination, 1000);
    assert_eq!(storage.currency(), Some(currency_address));
    assert_eq!(storage.denomination(), Some(1000));
    assert_eq!(storage.interest_rate(), Some(500));
    assert_eq!(storage.frequency(), Some(2));
    assert_eq!(storage.issue_date(), Some(1678886400));
    assert_eq!(storage.maturity_date(), Some(1710499200));
}

#[test]
fn test_unauthorized_set_issuer() {
    let (_manager, mut storage) = deploy_contract();
    let issuer_data = Issuer {
        institution: Address::new(1, 2),
        cnpj: String::from("111"),
        lei: String::from("222"),
    };
    assert_eq!(storage.set_issuer(Address::new(9, 9), issuer_data), Err(Error::Unauthorized));
    assert!(storage.issuer_info().is_none());
}

#[test]
fn test_unauthorized_set_bond() {
    let (_manager, mut storage) = deploy_contract();
    let bond_data = Bond {
        issue_number: 1,
        currency: Address::new(1, 1),
        denomination: 1,
        interest_rate: 1,
        frequency: 1,
        issue_date: 1,
        maturity_date: 1,
        bond_status: BondStatus::Issued,
    };
    assert_eq!(storage.set_bond(Address::new(9, 9), bond_data), Err(Error::Unauthorized));
    assert!(storage.bond_info().is_none());
}
