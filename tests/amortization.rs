use debenture::amortization::{calculate_proportional_interest, calculate_remuneration};
use debenture::bond::{net_of_tax, tax_permille, SECONDS_PER_DAY};
use debenture::{Address, Bond, BondAmortization, BondStatus, Error};

const ISSUE: u64 = 1_700_000_000;
const PERIOD: u64 = 30 * SECONDS_PER_DAY;

fn institution() -> Address {
    Address::new(0, 100)
}

fn investor() -> Address {
    Address::new(0, 200)
}

fn bond(denomination: i128, frequency: u32, interest_rate: u32) -> Bond {
    Bond {
        issue_number: 1,
        currency: Address::new(0, 300),
        denomination,
        interest_rate,
        frequency,
        issue_date: ISSUE,
        maturity_date: ISSUE + frequency as u64 * PERIOD,
        bond_status: BondStatus::Issued,
    }
}

fn settle(ledger: &mut BondAmortization, b: Bond, now: u64, index: i128) -> Result<(), Error> {
    ledger.transfer_amortization(1, institution(), institution(), b, investor(), now, index)
}

fn redeem(ledger: &mut BondAmortization, b: Bond, now: u64, factor: i128) -> Result<(), Error> {
    ledger.early_redemption(1, institution(), institution(), b, investor(), now, factor)
}

#[test]
fn derived_terms() {
    let b = bond(1200, 12, 5);
    assert_eq!(b.principal_per_period(), 100);
    assert_eq!(b.period_duration(), PERIOD);
    let odd = Bond { denomination: 1205, maturity_date: ISSUE + 12 * PERIOD + 11, ..b };
    assert_eq!(odd.principal_per_period(), 100);
    assert_eq!(odd.period_duration(), PERIOD);
}

#[test]
fn three_periods_settled_within_first_tier() {
    let b = bond(1200, 12, 5);
    // correction 100, gross interest 5, tax 22.5% of 5 rounded toward zero
    assert_eq!(calculate_remuneration(&b, 1_000_000, ISSUE + 3 * PERIOD + 3600), Some(104));
    let mut ledger = BondAmortization::new();
    let now = ISSUE + 3 * PERIOD + 3600;
    assert_eq!(settle(&mut ledger, b, now, 1_000_000), Ok(()));
    assert_eq!(ledger.get_payments_made(investor(), 1), 3);
    assert_eq!(ledger.get_last_settlement(investor(), 1), ISSUE + 3 * PERIOD);
    assert_eq!(ledger.get_balance(investor()), 312);
}

#[test]
fn settlement_before_a_full_period_changes_nothing() {
    let b = bond(1200, 12, 5);
    let mut ledger = BondAmortization::new();
    assert_eq!(settle(&mut ledger, b, ISSUE + PERIOD - 1, 1_000_000), Err(Error::NoPeriodElapsed));
    assert_eq!(ledger.get_payments_made(investor(), 1), 0);
    assert_eq!(ledger.get_last_settlement(investor(), 1), 0);
    assert_eq!(ledger.get_balance(investor()), 0);
    assert_eq!(settle(&mut ledger, b, ISSUE + PERIOD, 1_000_000), Ok(()));
    assert_eq!(settle(&mut ledger, b, ISSUE + 2 * PERIOD - 1, 1_000_000), Err(Error::NoPeriodElapsed));
    assert_eq!(ledger.get_payments_made(investor(), 1), 1);
    assert_eq!(ledger.get_last_settlement(investor(), 1), ISSUE + PERIOD);
    assert_eq!(ledger.get_balance(investor()), 104);
}

#[test]
fn periods_are_capped_at_the_schedule_end() {
    let b = bond(1200, 12, 5);
    let mut ledger = BondAmortization::new();
    let late = ISSUE + 40 * PERIOD;
    assert_eq!(settle(&mut ledger, b, late, 1_000_000), Ok(()));
    assert_eq!(ledger.get_payments_made(investor(), 1), 12);
    assert_eq!(ledger.get_last_settlement(investor(), 1), ISSUE + 12 * PERIOD);
    // past 720 days the tax is 15%: 5 - 0 = 5 per period
    assert_eq!(ledger.get_balance(investor()), 12 * 105);
    assert_eq!(settle(&mut ledger, b, late + PERIOD, 1_000_000), Err(Error::AlreadyFullyAmortized));
}

#[test]
fn inflation_index_corrects_principal() {
    let b = bond(1200, 12, 5);
    // correction 100 * 1.5 = 150, gross 7 (7.5 truncated), tax 1 (1.575 truncated)
    assert_eq!(calculate_remuneration(&b, 1_500_000, ISSUE + PERIOD), Some(156));
}

#[test]
fn tax_tier_boundaries() {
    let day = SECONDS_PER_DAY;
    assert_eq!(tax_permille(ISSUE, ISSUE + 180 * day - 1), 225);
    assert_eq!(tax_permille(ISSUE, ISSUE + 180 * day), 200);
    assert_eq!(tax_permille(ISSUE, ISSUE + 360 * day), 200);
    assert_eq!(tax_permille(ISSUE, ISSUE + 360 * day + 1), 175);
    assert_eq!(tax_permille(ISSUE, ISSUE + 720 * day), 175);
    assert_eq!(tax_permille(ISSUE, ISSUE + 720 * day + 1), 150);
    assert_eq!(net_of_tax(1000, ISSUE, ISSUE), Some(775));
    assert_eq!(net_of_tax(-1000, ISSUE, ISSUE), Some(-775));
    assert_eq!(net_of_tax(i128::MAX, ISSUE, ISSUE), None);

    let b = bond(120_000, 12, 10);
    assert_eq!(calculate_remuneration(&b, 1_000_000, ISSUE + 180 * day - 1), Some(10_775));
    assert_eq!(calculate_remuneration(&b, 1_000_000, ISSUE + 180 * day), Some(10_800));
}

#[test]
fn early_redemption_pays_off_and_closes_the_schedule() {
    let b = bond(1200, 12, 5);
    let mut ledger = BondAmortization::new();
    assert_eq!(settle(&mut ledger, b, ISSUE + 3 * PERIOD + 3600, 1_000_000), Ok(()));
    let now = ISSUE + 3 * PERIOD + PERIOD / 2;
    // remaining 900, correction 1, 2% of 901 is 18, less 4 of tax
    assert_eq!(calculate_proportional_interest(&b, 3, ISSUE + 3 * PERIOD, now, 1_010_000), Some(915));
    assert_eq!(redeem(&mut ledger, b, now, 1_010_000), Ok(()));
    assert_eq!(ledger.get_payments_made(investor(), 1), 12);
    assert_eq!(ledger.get_last_settlement(investor(), 1), ISSUE + 3 * PERIOD);
    assert_eq!(ledger.get_balance(investor()), 312 + 915);
    assert_eq!(settle(&mut ledger, b, now + 10 * PERIOD, 1_000_000), Err(Error::AlreadyFullyAmortized));
    assert_eq!(redeem(&mut ledger, b, now + 10 * PERIOD, 1_000_000), Err(Error::AlreadyFullyAmortized));
    assert_eq!(ledger.get_balance(investor()), 312 + 915);
}

#[test]
fn redemption_of_a_fresh_bond_starts_from_issue() {
    let b = bond(1200, 12, 5);
    let mut ledger = BondAmortization::new();
    assert_eq!(redeem(&mut ledger, b, ISSUE, 1_000_000), Err(Error::InvalidRedemptionTime));
    assert_eq!(ledger.get_payments_made(investor(), 1), 0);
    // one full period held: remaining 1200, 5% of it is 60, less 13 of tax
    assert_eq!(redeem(&mut ledger, b, ISSUE + PERIOD, 1_000_000), Ok(()));
    assert_eq!(ledger.get_payments_made(investor(), 1), 12);
    assert_eq!(ledger.get_last_settlement(investor(), 1), ISSUE);
    assert_eq!(ledger.get_balance(investor()), 1200 + 47);
}

#[test]
fn access_checks_come_first_in_order() {
    let b = bond(1200, 12, 5);
    let mut ledger = BondAmortization::new();
    let now = ISSUE + PERIOD;
    let stranger = Address::new(9, 9);
    assert_eq!(
        ledger.transfer_amortization(1, stranger, institution(), b, investor(), now, 1_000_000),
        Err(Error::Unauthorized)
    );
    let missing = Bond { issue_number: 0, ..b };
    assert_eq!(
        ledger.transfer_amortization(1, institution(), institution(), missing, investor(), now, 1_000_000),
        Err(Error::BondNotFound)
    );
    assert_eq!(
        ledger.early_redemption(1, institution(), institution(), b, Address::zero(), now, 1_000_000),
        Err(Error::InvalidInvestor)
    );
    assert_eq!(
        ledger.early_redemption(1, stranger, institution(), missing, Address::zero(), now, 1_000_000),
        Err(Error::Unauthorized)
    );
    assert_eq!(ledger.get_balance(investor()), 0);
}

#[test]
fn overflow_is_reported_not_credited() {
    let b = bond(1200, 12, 5);
    let mut ledger = BondAmortization::new();
    assert_eq!(calculate_remuneration(&b, i128::MAX, ISSUE + PERIOD), None);
    assert_eq!(settle(&mut ledger, b, ISSUE + PERIOD, i128::MAX), Err(Error::ArithmeticOverflow));
    assert_eq!(ledger.get_payments_made(investor(), 1), 0);
    assert_eq!(redeem(&mut ledger, b, ISSUE + PERIOD, i128::MAX), Err(Error::ArithmeticOverflow));
}

#[test]
fn transfer_moves_progress_and_restarts_the_clock() {
    let b = bond(1200, 12, 5);
    let mut ledger = BondAmortization::new();
    assert_eq!(settle(&mut ledger, b, ISSUE + 3 * PERIOD + 3600, 1_000_000), Ok(()));
    let buyer = Address::new(0, 201);
    let sold_at = ISSUE + 3 * PERIOD + 7200;
    ledger.transfer_amortization_state(1, investor(), buyer, sold_at);
    assert_eq!(ledger.get_payments_made(investor(), 1), 0);
    assert_eq!(ledger.get_last_settlement(investor(), 1), 0);
    assert_eq!(ledger.get_payments_made(buyer, 1), 3);
    assert_eq!(ledger.get_last_settlement(buyer, 1), sold_at);
    // nothing is paid at transfer time
    assert_eq!(ledger.get_balance(investor()), 312);
    assert_eq!(ledger.get_balance(buyer), 0);
    // the buyer's next period counts from the sale
    let r = ledger.transfer_amortization(1, institution(), institution(), b, buyer, sold_at + PERIOD - 1, 1_000_000);
    assert_eq!(r, Err(Error::NoPeriodElapsed));
    let r = ledger.transfer_amortization(1, institution(), institution(), b, buyer, sold_at + PERIOD, 1_000_000);
    assert_eq!(r, Ok(()));
    assert_eq!(ledger.get_payments_made(buyer, 1), 4);
    assert_eq!(ledger.get_balance(buyer), 104);
}

#[test]
fn other_keys_are_untouched() {
    let b = bond(1200, 12, 5);
    let mut ledger = BondAmortization::new();
    let other = Address::new(0, 999);
    assert_eq!(settle(&mut ledger, b, ISSUE + 2 * PERIOD, 1_000_000), Ok(()));
    assert_eq!(
        ledger.transfer_amortization(2, institution(), institution(), b, other, ISSUE + PERIOD, 1_000_000),
        Ok(())
    );
    assert_eq!(ledger.get_payments_made(investor(), 1), 2);
    assert_eq!(ledger.get_payments_made(investor(), 2), 0);
    assert_eq!(ledger.get_payments_made(other, 2), 1);
    assert_eq!(ledger.get_balance(investor()), 208);
    assert_eq!(ledger.get_balance(other), 104);
}

#[test]
fn transfer_to_the_same_investor_keeps_progress() {
    let b = bond(1200, 12, 5);
    let mut ledger = BondAmortization::new();
    assert_eq!(settle(&mut ledger, b, ISSUE + 3 * PERIOD + 3600, 1_000_000), Ok(()));
    let at = ISSUE + 3 * PERIOD + 7200;
    ledger.transfer_amortization_state(1, investor(), investor(), at);
    assert_eq!(ledger.get_payments_made(investor(), 1), 3);
    assert_eq!(ledger.get_last_settlement(investor(), 1), at);
    assert_eq!(redeem(&mut ledger, b, at + 1, 1_000_000), Ok(()));
    ledger.transfer_amortization_state(1, investor(), investor(), at + 2);
    assert_eq!(ledger.get_payments_made(investor(), 1), 12);
    assert_eq!(settle(&mut ledger, b, at + 20 * PERIOD, 1_000_000), Err(Error::AlreadyFullyAmortized));
}

#[test]
fn schedule_anchor_defaults_to_issue_date() {
    let b = bond(1200, 12, 5);
    let mut ledger = BondAmortization::new();
    assert_eq!(ledger.schedule_anchor(investor(), 1, &b), ISSUE);
    assert_eq!(settle(&mut ledger, b, ISSUE + 2 * PERIOD + 5, 1_000_000), Ok(()));
    assert_eq!(ledger.schedule_anchor(investor(), 1, &b), ISSUE + 2 * PERIOD);
}

#[test]
fn proportional_interest_with_no_time_held() {
    let b = bond(1200, 12, 5);
    // remaining 900 and correction 1, no interest accrued
    assert_eq!(
        calculate_proportional_interest(&b, 3, ISSUE + 3 * PERIOD, ISSUE + 3 * PERIOD, 1_010_000),
        Some(901)
    );
}
