use royalty_ledger::amount::TokenAmount;
use royalty_ledger::ledger::RoyaltyContract;
use royalty_ledger::records::{Address, Error};

fn register_simple(c: &mut RoyaltyContract, creator: Address, fee: u128) -> Result<u64, Error> {
    c.register_work(
        creator,
        "Title".to_owned(),
        "Description".to_owned(),
        "image".to_owned(),
        1000,
        500,
        TokenAmount::from_u128(1),
        TokenAmount::from_u128(fee),
        7,
    )
}

#[test]
fn work_ids_are_sequential_across_creators() {
    let mut c = RoyaltyContract::new();
    let alice = Address { id: 1 };
    let bob = Address { id: 2 };
    assert_eq!(register_simple(&mut c, alice, 10), Ok(1));
    assert_eq!(register_simple(&mut c, bob, 20), Ok(2));
    assert_eq!(register_simple(&mut c, alice, 30), Ok(3));
    assert_eq!(register_simple(&mut c, bob, 40), Ok(4));
    let stats = c.get_royalty_stats();
    assert_eq!(stats.total_works, 4);
}

#[test]
fn register_rejects_percentage_above_ten_thousand() {
    let mut c = RoyaltyContract::new();
    let alice = Address { id: 1 };
    let r = c.register_work(
        alice,
        "Title".to_owned(),
        "Description".to_owned(),
        "music".to_owned(),
        10001,
        0,
        TokenAmount::zero(),
        TokenAmount::zero(),
        7,
    );
    assert_eq!(r, Err(Error::InvalidConfiguration));
    // Nothing was created: the next expected id is still unknown.
    assert!(matches!(c.get_work(1), Err(Error::NotFound)));
    assert_eq!(c.get_royalty_stats().total_works, 0);
    // The boundary value 10000 itself is accepted.
    let r = c.register_work(
        alice,
        "Title".to_owned(),
        "Description".to_owned(),
        "music".to_owned(),
        10000,
        10000,
        TokenAmount::zero(),
        TokenAmount::zero(),
        7,
    );
    assert_eq!(r, Ok(1));
}

#[test]
fn register_fills_in_the_work_record() {
    let mut c = RoyaltyContract::new();
    let alice = Address { id: 9 };
    let r = c.register_work(
        alice,
        "Sea".to_owned(),
        "A short film".to_owned(),
        "video".to_owned(),
        2500,
        250,
        TokenAmount::from_u128(3),
        TokenAmount::from_u128(50),
        1234,
    );
    assert_eq!(r, Ok(1));
    let w = c.get_work(1).unwrap();
    assert_eq!(w.work_id, 1);
    assert_eq!(w.creator, alice);
    assert_eq!(w.title, "Sea");
    assert_eq!(w.description, "A short film");
    assert_eq!(w.content_type, "video");
    assert_eq!(w.creation_time, 1234);
    assert!(w.is_active);
    assert_eq!(w.license_count, 0);
    let cfg = c.get_royalty_config(1).unwrap();
    assert_eq!(cfg.work_id, 1);
    assert_eq!(cfg.primary_sale_percentage, 2500);
    assert_eq!(cfg.secondary_sale_percentage, 250);
    assert_eq!(cfg.streaming_rate, TokenAmount::from_u128(3));
    assert_eq!(cfg.minimum_license_fee, TokenAmount::from_u128(50));
}

#[test]
fn payment_too_low_iff_below_minimum_fee() {
    let mut c = RoyaltyContract::new();
    let alice = Address { id: 1 };
    let buyer = Address { id: 2 };
    assert_eq!(register_simple(&mut c, alice, 100), Ok(1));
    // Strictly below the minimum: refused, nothing changes.
    let r = c.purchase_license(
        1,
        buyer,
        "personal".to_owned(),
        0,
        TokenAmount::from_u128(99),
        8,
    );
    assert_eq!(r, Err(Error::PaymentTooLow));
    assert_eq!(c.get_royalty_stats().total_licenses, 0);
    // Exactly the minimum: accepted.
    let r = c.purchase_license(
        1,
        buyer,
        "personal".to_owned(),
        0,
        TokenAmount::from_u128(100),
        8,
    );
    assert_eq!(r, Ok(1));
}

#[test]
fn perpetual_license_is_valid_at_any_future_time() {
    let mut c = RoyaltyContract::new();
    let alice = Address { id: 1 };
    let buyer = Address { id: 2 };
    assert_eq!(register_simple(&mut c, alice, 10), Ok(1));
    let r = c.purchase_license(
        1,
        buyer,
        "commercial".to_owned(),
        0,
        TokenAmount::from_u128(10),
        50,
    );
    assert_eq!(r, Ok(1));
    assert_eq!(c.get_license(1).unwrap().expiration_time, 0);
    assert!(c.verify_license(1, 50));
    assert!(c.verify_license(1, u64::MAX));
    // A license id never issued is never valid.
    assert!(!c.verify_license(0, 50));
    assert!(!c.verify_license(2, 50));
    assert!(!c.verify_license(77, u64::MAX));
}

#[test]
fn timed_license_expires() {
    let mut c = RoyaltyContract::new();
    let alice = Address { id: 1 };
    let buyer = Address { id: 2 };
    assert_eq!(register_simple(&mut c, alice, 10), Ok(1));
    let r = c.purchase_license(
        1,
        buyer,
        "limited".to_owned(),
        100,
        TokenAmount::from_u128(10),
        1000,
    );
    assert_eq!(r, Ok(1));
    let l = c.get_license(1).unwrap();
    assert_eq!(l.issue_time, 1000);
    assert_eq!(l.expiration_time, 1100);
    assert!(c.verify_license(1, 1000));
    assert!(c.verify_license(1, 1099));
    assert!(!c.verify_license(1, 1100));
    assert!(!c.verify_license(1, 2000));
}

#[test]
fn revenue_is_exact_sum_of_all_payments() {
    let mut c = RoyaltyContract::new();
    let alice = Address { id: 1 };
    let buyer = Address { id: 2 };
    assert_eq!(register_simple(&mut c, alice, 5), Ok(1));
    // One license fee and two direct payments.
    assert_eq!(
        c.purchase_license(1, buyer, "personal".to_owned(), 0, TokenAmount::from_u128(7), 8),
        Ok(1)
    );
    assert_eq!(
        c.record_payment(1, buyer, TokenAmount::from_u128(11), "streaming".to_owned(), 9),
        Ok(2)
    );
    assert_eq!(
        c.record_payment(1, buyer, TokenAmount::from_u128(13), "sale".to_owned(), 10),
        Ok(3)
    );
    let stats = c.get_royalty_stats();
    assert_eq!(stats.total_payments, 3);
    assert_eq!(stats.total_revenue, TokenAmount::from_u128(31));
    // A refused payment adds nothing.
    assert_eq!(
        c.record_payment(99, buyer, TokenAmount::from_u128(100), "sale".to_owned(), 11),
        Err(Error::NotFound)
    );
    assert_eq!(c.get_royalty_stats().total_revenue, TokenAmount::from_u128(31));
}

#[test]
fn register_purchase_deactivate_scenario() {
    let mut c = RoyaltyContract::new();
    let creator = Address { id: 1 };
    let buyer = Address { id: 2 };
    assert_eq!(register_simple(&mut c, creator, 100), Ok(1));
    let r = c.purchase_license(
        1,
        buyer,
        "commercial".to_owned(),
        0,
        TokenAmount::from_u128(100),
        8,
    );
    assert_eq!(r, Ok(1));
    assert_eq!(c.get_license(1).unwrap().expiration_time, 0);
    assert!(c.verify_license(1, 8));
    assert_eq!(c.deactivate_work(1, creator), Ok(()));
    let r = c.purchase_license(
        1,
        buyer,
        "commercial".to_owned(),
        0,
        TokenAmount::from_u128(100),
        9,
    );
    assert_eq!(r, Err(Error::WorkInactive));
    // Reactivation opens the work again.
    assert_eq!(c.reactivate_work(1, creator), Ok(()));
    let r = c.purchase_license(
        1,
        buyer,
        "commercial".to_owned(),
        0,
        TokenAmount::from_u128(100),
        10,
    );
    assert_eq!(r, Ok(2));
}

#[test]
fn purchase_records_the_fee_as_license_payment() {
    let mut c = RoyaltyContract::new();
    let alice = Address { id: 1 };
    let buyer = Address { id: 2 };
    assert_eq!(register_simple(&mut c, alice, 10), Ok(1));
    assert_eq!(
        c.purchase_license(1, buyer, "personal".to_owned(), 0, TokenAmount::from_u128(15), 44),
        Ok(1)
    );
    let p = c.get_payment(1).unwrap();
    assert_eq!(p.payment_id, 1);
    assert_eq!(p.work_id, 1);
    assert_eq!(p.payer, buyer);
    assert_eq!(p.payment_time, 44);
    assert_eq!(p.payment_amount, TokenAmount::from_u128(15));
    assert_eq!(p.payment_type, "license");
    // The work's license tally grew.
    assert_eq!(c.get_work(1).unwrap().license_count, 1);
    assert_eq!(c.get_royalty_stats().total_licenses, 1);
}

#[test]
fn purchase_errors() {
    let mut c = RoyaltyContract::new();
    let alice = Address { id: 1 };
    let buyer = Address { id: 2 };
    // No such work.
    assert_eq!(
        c.purchase_license(1, buyer, "personal".to_owned(), 0, TokenAmount::from_u128(5), 8),
        Err(Error::NotFound)
    );
    assert_eq!(register_simple(&mut c, alice, 5), Ok(1));
    assert_eq!(c.deactivate_work(1, alice), Ok(()));
    assert_eq!(
        c.purchase_license(1, buyer, "personal".to_owned(), 0, TokenAmount::from_u128(5), 8),
        Err(Error::WorkInactive)
    );
}

#[test]
fn update_royalty_config_replaces_in_full() {
    let mut c = RoyaltyContract::new();
    let alice = Address { id: 1 };
    let mallory = Address { id: 3 };
    assert_eq!(register_simple(&mut c, alice, 10), Ok(1));
    // Only the creator may update.
    assert_eq!(
        c.update_royalty_config(
            1,
            mallory,
            1,
            1,
            TokenAmount::from_u128(1),
            TokenAmount::from_u128(1)
        ),
        Err(Error::Unauthorized)
    );
    // Absent work.
    assert_eq!(
        c.update_royalty_config(
            2,
            alice,
            1,
            1,
            TokenAmount::from_u128(1),
            TokenAmount::from_u128(1)
        ),
        Err(Error::NotFound)
    );
    // Out-of-range percentage.
    assert_eq!(
        c.update_royalty_config(
            1,
            alice,
            10001,
            1,
            TokenAmount::from_u128(1),
            TokenAmount::from_u128(1)
        ),
        Err(Error::InvalidConfiguration)
    );
    let untouched = c.get_royalty_config(1).unwrap();
    assert_eq!(untouched.primary_sale_percentage, 1000);
    // A full replacement.
    assert_eq!(
        c.update_royalty_config(
            1,
            alice,
            2,
            3,
            TokenAmount::from_u128(4),
            TokenAmount::from_u128(5)
        ),
        Ok(())
    );
    let cfg = c.get_royalty_config(1).unwrap();
    assert_eq!(cfg.primary_sale_percentage, 2);
    assert_eq!(cfg.secondary_sale_percentage, 3);
    assert_eq!(cfg.streaming_rate, TokenAmount::from_u128(4));
    assert_eq!(cfg.minimum_license_fee, TokenAmount::from_u128(5));
}

#[test]
fn activation_errors() {
    let mut c = RoyaltyContract::new();
    let alice = Address { id: 1 };
    let mallory = Address { id: 3 };
    assert_eq!(c.deactivate_work(1, alice), Err(Error::NotFound));
    assert_eq!(register_simple(&mut c, alice, 10), Ok(1));
    assert_eq!(c.deactivate_work(1, mallory), Err(Error::Unauthorized));
    assert_eq!(c.reactivate_work(1, mallory), Err(Error::Unauthorized));
    assert_eq!(c.deactivate_work(1, alice), Ok(()));
    assert!(!c.get_work(1).unwrap().is_active);
    assert_eq!(c.reactivate_work(1, alice), Ok(()));
    assert!(c.get_work(1).unwrap().is_active);
}

#[test]
fn creator_index_lists_works_in_order() {
    let mut c = RoyaltyContract::new();
    let alice = Address { id: 1 };
    let bob = Address { id: 2 };
    let carol = Address { id: 3 };
    assert_eq!(register_simple(&mut c, alice, 1), Ok(1));
    assert_eq!(register_simple(&mut c, bob, 1), Ok(2));
    assert_eq!(register_simple(&mut c, alice, 1), Ok(3));
    assert_eq!(register_simple(&mut c, alice, 1), Ok(4));
    assert_eq!(c.get_creator_works(alice), vec![1, 3, 4]);
    assert_eq!(c.get_creator_works(bob), vec![2]);
    assert_eq!(c.get_creator_works(carol), Vec::<u64>::new());
}

#[test]
fn work_licenses_and_payments_are_filtered_by_work() {
    let mut c = RoyaltyContract::new();
    let alice = Address { id: 1 };
    let buyer = Address { id: 2 };
    assert_eq!(register_simple(&mut c, alice, 1), Ok(1));
    assert_eq!(register_simple(&mut c, alice, 1), Ok(2));
    assert_eq!(
        c.purchase_license(1, buyer, "a".to_owned(), 0, TokenAmount::from_u128(1), 8),
        Ok(1)
    );
    assert_eq!(
        c.purchase_license(2, buyer, "b".to_owned(), 0, TokenAmount::from_u128(1), 8),
        Ok(2)
    );
    assert_eq!(
        c.purchase_license(1, buyer, "c".to_owned(), 0, TokenAmount::from_u128(1), 8),
        Ok(3)
    );
    assert_eq!(c.get_work_licenses(1), vec![1, 3]);
    assert_eq!(c.get_work_licenses(2), vec![2]);
    assert_eq!(c.get_work_licenses(3), Vec::<u64>::new());
    assert_eq!(
        c.record_payment(2, buyer, TokenAmount::from_u128(9), "sale".to_owned(), 9),
        Ok(4)
    );
    // Payments 1..=3 are the license fees; payment 4 is the direct sale.
    assert_eq!(c.get_work_payments(1), vec![1, 3]);
    assert_eq!(c.get_work_payments(2), vec![2, 4]);
}

#[test]
fn getters_fail_with_not_found_on_absent_ids() {
    let c = RoyaltyContract::new();
    assert!(matches!(c.get_work(1), Err(Error::NotFound)));
    assert!(matches!(c.get_royalty_config(1), Err(Error::NotFound)));
    assert!(matches!(c.get_license(1), Err(Error::NotFound)));
    assert!(matches!(c.get_payment(1), Err(Error::NotFound)));
    let stats = c.get_royalty_stats();
    assert_eq!(stats.total_works, 0);
    assert_eq!(stats.total_licenses, 0);
    assert_eq!(stats.total_payments, 0);
    assert_eq!(stats.total_revenue, TokenAmount::zero());
}
