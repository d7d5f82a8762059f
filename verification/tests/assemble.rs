use royalty_ledger::amount::TokenAmount;
use royalty_ledger::ledger::RoyaltyContract;
use royalty_ledger::records::{
    Address, CreativeWork, CreatorWorks, License, RoyaltyConfig, RoyaltyPayment, RoyaltyStats,
};

fn sample_work(work_id: u64, creator: Address) -> CreativeWork {
    CreativeWork {
        work_id,
        creator,
        title: "Title".to_owned(),
        description: "Description".to_owned(),
        creation_time: 7,
        content_type: "image".to_owned(),
        is_active: true,
        license_count: 0,
    }
}

fn sample_config(work_id: u64) -> RoyaltyConfig {
    RoyaltyConfig {
        work_id,
        primary_sale_percentage: 1000,
        secondary_sale_percentage: 500,
        streaming_rate: TokenAmount::from_u128(1),
        minimum_license_fee: TokenAmount::from_u128(10),
    }
}

fn stats(works: u64, licenses: u64, payments: u64, revenue: u128) -> RoyaltyStats {
    RoyaltyStats {
        total_works: works,
        total_licenses: licenses,
        total_payments: payments,
        total_revenue: TokenAmount::from_u128(revenue),
    }
}

#[test]
fn assembling_a_produced_state_is_well_formed() {
    let alice = Address { id: 1 };
    let c = RoyaltyContract::assemble(
        vec![sample_work(1, alice)],
        vec![sample_config(1)],
        Vec::new(),
        Vec::new(),
        vec![CreatorWorks { creator: alice, work_ids: vec![1] }],
        stats(1, 0, 0, 0),
    );
    assert!(c.check_invariant());
    assert_eq!(c.get_work(1).unwrap().title, "Title");
    assert_eq!(c.get_creator_works(alice), vec![1]);
}

#[test]
fn corrupted_states_are_rejected() {
    let alice = Address { id: 1 };
    let bob = Address { id: 2 };
    // A work count that does not match the records.
    let c = RoyaltyContract::assemble(
        vec![sample_work(1, alice)],
        vec![sample_config(1)],
        Vec::new(),
        Vec::new(),
        Vec::new(),
        stats(2, 0, 0, 0),
    );
    assert!(!c.check_invariant());
    // A work under the wrong id.
    let c = RoyaltyContract::assemble(
        vec![sample_work(5, alice)],
        vec![sample_config(1)],
        Vec::new(),
        Vec::new(),
        Vec::new(),
        stats(1, 0, 0, 0),
    );
    assert!(!c.check_invariant());
    // A revenue total that is not the sum of the payments.
    let c = RoyaltyContract::assemble(
        vec![sample_work(1, alice)],
        vec![sample_config(1)],
        Vec::new(),
        vec![RoyaltyPayment {
            payment_id: 1,
            work_id: 1,
            payer: bob,
            payment_time: 9,
            payment_amount: TokenAmount::from_u128(25),
            payment_type: "sale".to_owned(),
        }],
        Vec::new(),
        stats(1, 0, 1, 24),
    );
    assert!(!c.check_invariant());
    // A license tally that does not match the licenses.
    let c = RoyaltyContract::assemble(
        vec![sample_work(1, alice)],
        vec![sample_config(1)],
        vec![License {
            license_id: 1,
            work_id: 1,
            licensee: bob,
            license_type: "personal".to_owned(),
            issue_time: 8,
            expiration_time: 0,
            payment_amount: TokenAmount::from_u128(10),
        }],
        Vec::new(),
        Vec::new(),
        stats(1, 1, 0, 0),
    );
    assert!(!c.check_invariant());
    // An index entry claiming a work of another principal.
    let c = RoyaltyContract::assemble(
        vec![sample_work(1, alice)],
        vec![sample_config(1)],
        Vec::new(),
        Vec::new(),
        vec![CreatorWorks { creator: bob, work_ids: vec![1] }],
        stats(1, 0, 0, 0),
    );
    assert!(!c.check_invariant());
}
