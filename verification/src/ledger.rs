//! The ledger state machine.
//!
//! [`RoyaltyContract`] holds the whole persistent state of the registry:
//! works, royalty terms, licenses, payments, the creator index, and the
//! aggregate statistics. Every operation is a synchronous state transition
//! that either applies all of its writes or, on a typed error, none of
//! them. The contracts are stated over [`LedgerView`], the mathematical
//! model of the state, and every operation preserves the invariant
//! [`inv`].
//!
//! The embedding supplies the current timestamp as a plain value and is
//! responsible for authenticating callers before handing their identity to
//! a mutating operation.

use vstd::prelude::*;
use crate::amount::{TokenAmount, max_amount};
use crate::records::{
    Address, CreativeWork, CreativeWorkView, CreatorWorks, CreatorWorksView, Error, License,
    LicenseView, RoyaltyConfig, RoyaltyConfigView, RoyaltyPayment, RoyaltyPaymentView,
    RoyaltyStats, RoyaltyStatsView,
};

verus! {

/// The mathematical model of the whole ledger state.
#[verifier::ext_equal]
pub struct LedgerView {
    /// Registered works; the work with id `i + 1` is at index `i`.
    pub works: Seq<CreativeWorkView>,
    /// Royalty terms; exactly one per work, at the same index.
    pub configs: Seq<RoyaltyConfigView>,
    /// Issued licenses; the license with id `i + 1` is at index `i`.
    pub licenses: Seq<LicenseView>,
    /// Recorded payments; the payment with id `i + 1` is at index `i`.
    pub payments: Seq<RoyaltyPaymentView>,
    /// The creator index: per creator, the works they registered in order.
    pub creators: Seq<CreatorWorksView>,
    /// Aggregate statistics.
    pub stats: RoyaltyStatsView,
}

/// How many licenses have been issued against the given work.
pub open spec fn count_licenses_for(licenses: Seq<LicenseView>, work_id: u64) -> int
    decreases licenses.len(),
{
    if licenses.len() == 0 {
        0
    } else {
        count_licenses_for(licenses.drop_last(), work_id) + if licenses.last().work_id
            == work_id {
            1int
        } else {
            0int
        }
    }
}

/// The exact sum of all recorded payment amounts.
pub open spec fn sum_payment_amounts(payments: Seq<RoyaltyPaymentView>) -> int
    decreases payments.len(),
{
    if payments.len() == 0 {
        0
    } else {
        sum_payment_amounts(payments.drop_last()) + payments.last().payment_amount
    }
}

/// The ids of the licenses issued against the given work, in issuance order.
pub open spec fn license_ids_for(licenses: Seq<LicenseView>, work_id: u64) -> Seq<u64>
    decreases licenses.len(),
{
    if licenses.len() == 0 {
        Seq::empty()
    } else {
        license_ids_for(licenses.drop_last(), work_id) + if licenses.last().work_id == work_id {
            seq![licenses.last().license_id]
        } else {
            Seq::<u64>::empty()
        }
    }
}

/// The ids of the payments recorded for the given work, in record order.
pub open spec fn payment_ids_for(payments: Seq<RoyaltyPaymentView>, work_id: u64) -> Seq<u64>
    decreases payments.len(),
{
    if payments.len() == 0 {
        Seq::empty()
    } else {
        payment_ids_for(payments.drop_last(), work_id) + if payments.last().work_id == work_id {
            seq![payments.last().payment_id]
        } else {
            Seq::<u64>::empty()
        }
    }
}

/// The ordered work ids the creator index holds for the given principal;
/// empty if the principal never registered a work.
pub open spec fn creator_work_ids(creators: Seq<CreatorWorksView>, creator: Address) -> Seq<u64>
    decreases creators.len(),
{
    if creators.len() == 0 {
        Seq::empty()
    } else if creators.first().creator == creator {
        creators.first().work_ids
    } else {
        creator_work_ids(creators.drop_first(), creator)
    }
}

/// The creator index after appending one freshly assigned work id to the
/// given principal's entry, creating the entry if it is missing.
pub open spec fn index_push(
    creators: Seq<CreatorWorksView>,
    creator: Address,
    work_id: u64,
) -> Seq<CreatorWorksView>
    decreases creators.len(),
{
    if creators.len() == 0 {
        seq![CreatorWorksView { creator, work_ids: seq![work_id] }]
    } else if creators.first().creator == creator {
        seq![
            CreatorWorksView { creator, work_ids: creators.first().work_ids.push(work_id) },
        ] + creators.drop_first()
    } else {
        seq![creators.first()] + index_push(creators.drop_first(), creator, work_id)
    }
}

/// The state after a successful work registration: the new work and its
/// royalty terms are appended under the next sequential id, the id is
/// appended to the creator's index entry, and `total_works` grows by one.
pub open spec fn register_transition(
    v: LedgerView,
    creator: Address,
    title: Seq<char>,
    description: Seq<char>,
    content_type: Seq<char>,
    primary_sale_percentage: u32,
    secondary_sale_percentage: u32,
    streaming_rate: int,
    minimum_license_fee: int,
    current_time: u64,
) -> LedgerView {
    let work_id = (v.works.len() + 1) as u64;
    LedgerView {
        works: v.works.push(
            CreativeWorkView {
                work_id,
                creator,
                title,
                description,
                creation_time: current_time,
                content_type,
                is_active: true,
                license_count: 0,
            },
        ),
        configs: v.configs.push(
            RoyaltyConfigView {
                work_id,
                primary_sale_percentage,
                secondary_sale_percentage,
                streaming_rate,
                minimum_license_fee,
            },
        ),
        licenses: v.licenses,
        payments: v.payments,
        creators: index_push(v.creators, creator, work_id),
        stats: RoyaltyStatsView {
            total_works: (v.stats.total_works + 1) as u64,
            ..v.stats
        },
    }
}

/// Whether a work with the given id was ever registered.
pub open spec fn work_exists(v: LedgerView, work_id: u64) -> bool {
    1 <= work_id <= v.works.len()
}

/// Whether the work exists and is open for licensing.
pub open spec fn work_active(v: LedgerView, work_id: u64) -> bool {
    work_exists(v, work_id) && v.works[work_id - 1].is_active
}

/// The state after a successful payment record: the payment is appended
/// under the next sequential id, `total_payments` grows by one, and the
/// amount is added exactly to `total_revenue`.
pub open spec fn record_payment_transition(
    v: LedgerView,
    work_id: u64,
    payer: Address,
    payment_amount: int,
    payment_type: Seq<char>,
    current_time: u64,
) -> LedgerView {
    let payment_id = (v.payments.len() + 1) as u64;
    LedgerView {
        payments: v.payments.push(
            RoyaltyPaymentView {
                payment_id,
                work_id,
                payer,
                payment_time: current_time,
                payment_amount,
                payment_type,
            },
        ),
        stats: RoyaltyStatsView {
            total_payments: (v.stats.total_payments + 1) as u64,
            total_revenue: v.stats.total_revenue + payment_amount,
            ..v.stats
        },
        ..v
    }
}

/// The state after a successful license purchase: the payment is recorded
/// with kind "license", the license is appended under the next sequential
/// id, the work's license tally grows by one, and so does
/// `total_licenses`. A zero duration yields the perpetual expiration time
/// 0; otherwise the license expires `duration_seconds` after the purchase.
pub open spec fn purchase_license_transition(
    v: LedgerView,
    work_id: u64,
    licensee: Address,
    license_type: Seq<char>,
    duration_seconds: u64,
    payment_amount: int,
    current_time: u64,
) -> LedgerView {
    let v1 = record_payment_transition(
        v,
        work_id,
        licensee,
        payment_amount,
        "license"@,
        current_time,
    );
    let license_id = (v.licenses.len() + 1) as u64;
    let expiration_time = if duration_seconds == 0 {
        0u64
    } else {
        (current_time + duration_seconds) as u64
    };
    let work0 = v.works[work_id - 1];
    LedgerView {
        works: v1.works.update(
            work_id - 1,
            CreativeWorkView { license_count: (work0.license_count + 1) as u64, ..work0 },
        ),
        licenses: v1.licenses.push(
            LicenseView {
                license_id,
                work_id,
                licensee,
                license_type,
                issue_time: current_time,
                expiration_time,
                payment_amount,
            },
        ),
        stats: RoyaltyStatsView { total_licenses: (v1.stats.total_licenses + 1) as u64, ..v1.stats },
        ..v1
    }
}

/// The state after a full replacement of a work's royalty terms.
pub open spec fn update_config_transition(
    v: LedgerView,
    work_id: u64,
    primary_sale_percentage: u32,
    secondary_sale_percentage: u32,
    streaming_rate: int,
    minimum_license_fee: int,
) -> LedgerView {
    LedgerView {
        configs: v.configs.update(
            work_id - 1,
            RoyaltyConfigView {
                work_id,
                primary_sale_percentage,
                secondary_sale_percentage,
                streaming_rate,
                minimum_license_fee,
            },
        ),
        ..v
    }
}

/// The state after deactivating or reactivating a work.
pub open spec fn set_active_transition(v: LedgerView, work_id: u64, active: bool) -> LedgerView {
    let work0 = v.works[work_id - 1];
    LedgerView {
        works: v.works.update(work_id - 1, CreativeWorkView { is_active: active, ..work0 }),
        ..v
    }
}

/// The ledger invariant. It holds of the empty ledger and is preserved by
/// every operation:
/// - ids are assigned sequentially from 1, with no gaps or repeats;
/// - every license and payment references an existing work;
/// - every work has exactly one royalty configuration, and its percentages
///   are at most 10000 basis points;
/// - each work's `license_count` equals the number of licenses issued
///   against it;
/// - the statistics hold the exact counts, and `total_revenue` the exact
///   sum of all recorded payment amounts;
/// - the creator index lists, per principal, only ids of works that
///   principal registered, in strictly increasing order.
pub open spec fn inv(v: LedgerView) -> bool {
    &&& v.configs.len() == v.works.len()
    &&& v.stats.total_works == v.works.len()
    &&& v.stats.total_licenses == v.licenses.len()
    &&& v.stats.total_payments == v.payments.len()
    &&& v.stats.total_revenue == sum_payment_amounts(v.payments)
    &&& 0 <= v.stats.total_revenue <= max_amount()
    &&& forall|i: int|
        0 <= i < v.payments.len() ==> 0 <= (#[trigger] v.payments[i]).payment_amount
            <= max_amount()
    &&& forall|i: int| 0 <= i < v.works.len() ==> (#[trigger] v.works[i]).work_id == i + 1
    &&& forall|i: int| 0 <= i < v.configs.len() ==> (#[trigger] v.configs[i]).work_id == i + 1
    &&& forall|i: int|
        0 <= i < v.configs.len() ==> (#[trigger] v.configs[i]).primary_sale_percentage <= 10000
            && v.configs[i].secondary_sale_percentage <= 10000
    &&& forall|i: int|
        0 <= i < v.licenses.len() ==> (#[trigger] v.licenses[i]).license_id == i + 1 && 1
            <= v.licenses[i].work_id <= v.works.len()
    &&& forall|i: int|
        0 <= i < v.payments.len() ==> (#[trigger] v.payments[i]).payment_id == i + 1 && 1
            <= v.payments[i].work_id <= v.works.len()
    &&& forall|i: int|
        0 <= i < v.works.len() ==> (#[trigger] v.works[i]).license_count == count_licenses_for(
            v.licenses,
            (i + 1) as u64,
        )
    &&& creator_index_ok(v)
}

/// The creator-index part of [`inv`].
pub open spec fn creator_index_ok(v: LedgerView) -> bool {
    &&& forall|i: int, j: int|
        0 <= i < j < v.creators.len() ==> (#[trigger] v.creators[i]).creator != (
        #[trigger] v.creators[j]).creator
    &&& forall|i: int, k: int|
        0 <= i < v.creators.len() && 0 <= k < (#[trigger] v.creators[i]).work_ids.len() ==> 1 <= (
        #[trigger] v.creators[i].work_ids[k]) <= v.works.len() && v.works[v.creators[i].work_ids[k]
            - 1].creator == v.creators[i].creator
    &&& forall|i: int, k1: int, k2: int|
        0 <= i < v.creators.len() && 0 <= k1 < k2 < (#[trigger] v.creators[i]).work_ids.len()
            ==> (#[trigger] v.creators[i].work_ids[k1]) < (#[trigger] v.creators[i].work_ids[k2])
}

/// The ledger before anything was registered.
pub open spec fn empty_ledger() -> LedgerView {
    LedgerView {
        works: Seq::empty(),
        configs: Seq::empty(),
        licenses: Seq::empty(),
        payments: Seq::empty(),
        creators: Seq::empty(),
        stats: RoyaltyStatsView {
            total_works: 0,
            total_licenses: 0,
            total_payments: 0,
            total_revenue: 0,
        },
    }
}

/// Whether a license is valid in the given state at the given time: it was
/// issued, and is either perpetual or not yet expired.
pub open spec fn license_valid(v: LedgerView, license_id: u64, now: u64) -> bool {
    &&& 1 <= license_id <= v.licenses.len()
    &&& {
        let exp = v.licenses[license_id - 1].expiration_time;
        exp == 0 || now < exp
    }
}

/// Appending a license changes the per-work license tally by one for its
/// own work and leaves every other tally unchanged.
proof fn lemma_count_licenses_push(licenses: Seq<LicenseView>, l: LicenseView, work_id: u64)
    ensures
        count_licenses_for(licenses.push(l), work_id) == count_licenses_for(licenses, work_id) + (
        if l.work_id == work_id {
            1int
        } else {
            0int
        }),
{
    assert(licenses.push(l).drop_last() =~= licenses);
}

/// A work no license refers to has a tally of zero.
proof fn lemma_count_licenses_none(licenses: Seq<LicenseView>, work_id: u64)
    requires
        forall|i: int| 0 <= i < licenses.len() ==> (#[trigger] licenses[i]).work_id != work_id,
    ensures
        count_licenses_for(licenses, work_id) == 0,
    decreases licenses.len(),
{
    if licenses.len() > 0 {
        lemma_count_licenses_none(licenses.drop_last(), work_id);
    }
}

/// Appending a payment grows the exact revenue sum by its amount.
proof fn lemma_sum_push(payments: Seq<RoyaltyPaymentView>, p: RoyaltyPaymentView)
    ensures
        sum_payment_amounts(payments.push(p)) == sum_payment_amounts(payments) + p.payment_amount,
{
    assert(payments.push(p).drop_last() =~= payments);
}

/// When the principal's entry is the first match at position `i`,
/// `index_push` updates exactly that entry.
proof fn lemma_index_push_found(
    creators: Seq<CreatorWorksView>,
    creator: Address,
    work_id: u64,
    i: int,
)
    requires
        0 <= i < creators.len(),
        creators[i].creator == creator,
        forall|j: int| 0 <= j < i ==> (#[trigger] creators[j]).creator != creator,
    ensures
        index_push(creators, creator, work_id) =~= creators.update(
            i,
            CreatorWorksView { creator, work_ids: creators[i].work_ids.push(work_id) },
        ),
    decreases creators.len(),
{
    if i > 0 {
        lemma_index_push_found(creators.drop_first(), creator, work_id, i - 1);
    }
}

/// When the principal has no entry, `index_push` appends a fresh one.
proof fn lemma_index_push_absent(creators: Seq<CreatorWorksView>, creator: Address, work_id: u64)
    requires
        forall|j: int| 0 <= j < creators.len() ==> (#[trigger] creators[j]).creator != creator,
    ensures
        index_push(creators, creator, work_id) =~= creators.push(
            CreatorWorksView { creator, work_ids: seq![work_id] },
        ),
    decreases creators.len(),
{
    if creators.len() > 0 {
        lemma_index_push_absent(creators.drop_first(), creator, work_id);
    }
}

/// When the principal's entry is the first match at position `i`, the
/// lookup returns exactly that entry's ids.
proof fn lemma_creator_work_ids_found(creators: Seq<CreatorWorksView>, creator: Address, i: int)
    requires
        0 <= i < creators.len(),
        creators[i].creator == creator,
        forall|j: int| 0 <= j < i ==> (#[trigger] creators[j]).creator != creator,
    ensures
        creator_work_ids(creators, creator) == creators[i].work_ids,
    decreases creators.len(),
{
    if i > 0 {
        lemma_creator_work_ids_found(creators.drop_first(), creator, i - 1);
    }
}

/// A principal with no entry has an empty lookup.
proof fn lemma_creator_work_ids_absent(creators: Seq<CreatorWorksView>, creator: Address)
    requires
        forall|j: int| 0 <= j < creators.len() ==> (#[trigger] creators[j]).creator != creator,
    ensures
        creator_work_ids(creators, creator) == Seq::<u64>::empty(),
    decreases creators.len(),
{
    if creators.len() > 0 {
        lemma_creator_work_ids_absent(creators.drop_first(), creator);
    }
}

/// Registration appends the fresh id to the registering principal's index
/// listing and leaves every other principal's listing unchanged.
pub proof fn lemma_index_push_lookup(
    creators: Seq<CreatorWorksView>,
    creator: Address,
    work_id: u64,
    other: Address,
)
    ensures
        creator_work_ids(index_push(creators, creator, work_id), creator) == creator_work_ids(
            creators,
            creator,
        ).push(work_id),
        other != creator ==> creator_work_ids(index_push(creators, creator, work_id), other)
            == creator_work_ids(creators, other),
    decreases creators.len(),
{
    let res = index_push(creators, creator, work_id);
    if creators.len() == 0 {
        assert(res == seq![CreatorWorksView { creator, work_ids: seq![work_id] }]);
        assert(res.len() == 1 && res.first().creator == creator);
        assert(res.drop_first() =~= Seq::<CreatorWorksView>::empty());
        assert(creator_work_ids(creators, creator).push(work_id) =~= seq![work_id]);
        if other != creator {
            assert(creator_work_ids(res, other) == creator_work_ids(res.drop_first(), other));
            assert(creator_work_ids(res, other) =~= Seq::<u64>::empty());
        }
    } else if creators.first().creator == creator {
        let updated = CreatorWorksView {
            creator,
            work_ids: creators.first().work_ids.push(work_id),
        };
        assert(res == seq![updated] + creators.drop_first());
        assert(res.len() == creators.len());
        assert(res.first() == updated);
        assert(res.drop_first() =~= creators.drop_first());
    } else {
        lemma_index_push_lookup(creators.drop_first(), creator, work_id, other);
        lemma_index_push_lookup(creators.drop_first(), creator, work_id, creators.first().creator);
        let rest = index_push(creators.drop_first(), creator, work_id);
        assert(res == seq![creators.first()] + rest);
        assert(rest.len() > 0 ==> res.len() == rest.len() + 1);
        assert(res.first() == creators.first());
        assert(res.drop_first() =~= rest);
    }
}

/// The position of the principal's entry in the creator index, or -1 if
/// the principal has none.
spec fn first_match(creators: Seq<CreatorWorksView>, creator: Address) -> int
    decreases creators.len(),
{
    if creators.len() == 0 {
        -1
    } else if creators.first().creator == creator {
        0
    } else {
        let r = first_match(creators.drop_first(), creator);
        if r == -1 {
            -1
        } else {
            r + 1
        }
    }
}

/// `first_match` is either -1 with no matching entry at all, or the least
/// position whose entry belongs to the principal.
proof fn lemma_first_match(creators: Seq<CreatorWorksView>, creator: Address)
    ensures
        first_match(creators, creator) == -1 ==> forall|j: int|
            0 <= j < creators.len() ==> (#[trigger] creators[j]).creator != creator,
        first_match(creators, creator) != -1 ==> {
            let m = first_match(creators, creator);
            &&& 0 <= m < creators.len()
            &&& creators[m].creator == creator
            &&& forall|j: int| 0 <= j < m ==> (#[trigger] creators[j]).creator != creator
        },
    decreases creators.len(),
{
    if creators.len() > 0 && creators.first().creator != creator {
        let rest = creators.drop_first();
        lemma_first_match(rest, creator);
        let r = first_match(rest, creator);
        if r == -1 {
            assert forall|j: int|
                0 <= j < creators.len() implies (#[trigger] creators[j]).creator != creator by {
                if j > 0 {
                    assert(creators[j] == rest[j - 1]);
                }
            }
        } else {
            assert(creators[r + 1] == rest[r]);
            assert forall|j: int|
                0 <= j < r + 1 implies (#[trigger] creators[j]).creator != creator by {
                if j > 0 {
                    assert(creators[j] == rest[j - 1]);
                }
            }
        }
    }
}

/// Registration preserves the ledger invariant.
pub proof fn lemma_register_preserves_inv(
    v: LedgerView,
    creator: Address,
    title: Seq<char>,
    description: Seq<char>,
    content_type: Seq<char>,
    primary_sale_percentage: u32,
    secondary_sale_percentage: u32,
    streaming_rate: int,
    minimum_license_fee: int,
    current_time: u64,
)
    requires
        inv(v),
        v.works.len() < u64::MAX,
        primary_sale_percentage <= 10000,
        secondary_sale_percentage <= 10000,
    ensures
        inv(
            register_transition(
                v,
                creator,
                title,
                description,
                content_type,
                primary_sale_percentage,
                secondary_sale_percentage,
                streaming_rate,
                minimum_license_fee,
                current_time,
            ),
        ),
{
    let v1 = register_transition(
        v,
        creator,
        title,
        description,
        content_type,
        primary_sale_percentage,
        secondary_sale_percentage,
        streaming_rate,
        minimum_license_fee,
        current_time,
    );
    let work_id = (v.works.len() + 1) as u64;
    assert forall|i: int| 0 <= i < v.licenses.len() implies (#[trigger] v.licenses[i]).work_id
        != work_id by {}
    lemma_count_licenses_none(v.licenses, work_id);
    assert forall|i: int| 0 <= i < v1.works.len() implies (#[trigger] v1.works[i]).license_count
        == count_licenses_for(v1.licenses, (i + 1) as u64) by {
        if i < v.works.len() {
            assert(v1.works[i] == v.works[i]);
        }
    }
    let m = first_match(v.creators, creator);
    lemma_first_match(v.creators, creator);
    if m == -1 {
        lemma_index_push_absent(v.creators, creator, work_id);
        let cs1 = v.creators.push(CreatorWorksView { creator, work_ids: seq![work_id] });
        assert(v1.creators == cs1);
        assert forall|i: int, k: int|
            0 <= i < cs1.len() && 0 <= k < (#[trigger] cs1[i]).work_ids.len() implies 1 <= (
        #[trigger] cs1[i].work_ids[k]) <= v1.works.len() && v1.works[cs1[i].work_ids[k]
            - 1].creator == cs1[i].creator by {
            if i < v.creators.len() {
                assert(cs1[i] == v.creators[i]);
                assert(v1.works[cs1[i].work_ids[k] - 1] == v.works[cs1[i].work_ids[k] - 1]);
            } else {
                assert(cs1[i].work_ids[k] == work_id);
                assert(v1.works[work_id - 1].creator == creator);
            }
        }
        assert(creator_index_ok(v1));
    } else {
        lemma_index_push_found(v.creators, creator, work_id, m);
        let entry = CreatorWorksView { creator, work_ids: v.creators[m].work_ids.push(work_id) };
        let cs1 = v.creators.update(m, entry);
        assert(v1.creators == cs1);
        assert forall|i: int| 0 <= i < cs1.len() implies (#[trigger] cs1[i]).creator
            == v.creators[i].creator by {}
        assert forall|i: int, k: int|
            0 <= i < cs1.len() && 0 <= k < (#[trigger] cs1[i]).work_ids.len() implies 1 <= (
        #[trigger] cs1[i].work_ids[k]) <= v1.works.len() && v1.works[cs1[i].work_ids[k]
            - 1].creator == cs1[i].creator by {
            if i != m {
                assert(cs1[i] == v.creators[i]);
                assert(v1.works[cs1[i].work_ids[k] - 1] == v.works[cs1[i].work_ids[k] - 1]);
            } else {
                if k < v.creators[m].work_ids.len() {
                    assert(cs1[i].work_ids[k] == v.creators[m].work_ids[k]);
                    assert(v1.works[cs1[i].work_ids[k] - 1] == v.works[cs1[i].work_ids[k] - 1]);
                } else {
                    assert(cs1[i].work_ids[k] == work_id);
                    assert(v1.works[work_id - 1].creator == creator);
                }
            }
        }
        assert forall|i: int, k1: int, k2: int|
            0 <= i < cs1.len() && 0 <= k1 < k2 < (#[trigger] cs1[i]).work_ids.len() implies (
        #[trigger] cs1[i].work_ids[k1]) < (#[trigger] cs1[i].work_ids[k2]) by {
            if i != m {
                assert(cs1[i] == v.creators[i]);
            } else {
                if k2 < v.creators[m].work_ids.len() {
                    assert(cs1[i].work_ids[k1] == v.creators[m].work_ids[k1]);
                    assert(cs1[i].work_ids[k2] == v.creators[m].work_ids[k2]);
                } else {
                    assert(cs1[i].work_ids[k1] == v.creators[m].work_ids[k1]);
                    assert(v.creators[m].work_ids[k1] <= v.works.len());
                    assert(cs1[i].work_ids[k2] == work_id);
                }
            }
        }
        assert(creator_index_ok(v1));
    }
}

/// A per-work license tally never exceeds the total number of licenses.
proof fn lemma_count_licenses_le_len(licenses: Seq<LicenseView>, work_id: u64)
    ensures
        0 <= count_licenses_for(licenses, work_id) <= licenses.len(),
    decreases licenses.len(),
{
    if licenses.len() > 0 {
        lemma_count_licenses_le_len(licenses.drop_last(), work_id);
    }
}

/// Recording a payment preserves the ledger invariant.
pub proof fn lemma_record_payment_preserves_inv(
    v: LedgerView,
    work_id: u64,
    payer: Address,
    payment_amount: int,
    payment_type: Seq<char>,
    current_time: u64,
)
    requires
        inv(v),
        work_exists(v, work_id),
        v.payments.len() < u64::MAX,
        0 <= payment_amount,
        v.stats.total_revenue + payment_amount <= max_amount(),
    ensures
        inv(
            record_payment_transition(
                v,
                work_id,
                payer,
                payment_amount,
                payment_type,
                current_time,
            ),
        ),
{
    let v1 = record_payment_transition(v, work_id, payer, payment_amount, payment_type, current_time);
    let p = RoyaltyPaymentView {
        payment_id: (v.payments.len() + 1) as u64,
        work_id,
        payer,
        payment_time: current_time,
        payment_amount,
        payment_type,
    };
    lemma_sum_push(v.payments, p);
    assert forall|i: int|
        0 <= i < v1.payments.len() implies (#[trigger] v1.payments[i]).payment_id == i + 1 && 1
        <= v1.payments[i].work_id <= v1.works.len() by {
        if i < v.payments.len() {
            assert(v1.payments[i] == v.payments[i]);
        }
    }
    assert forall|i: int|
        0 <= i < v1.payments.len() implies 0 <= (#[trigger] v1.payments[i]).payment_amount
        <= max_amount() by {
        if i < v.payments.len() {
            assert(v1.payments[i] == v.payments[i]);
        }
    }
}

/// Purchasing a license preserves the ledger invariant.
pub proof fn lemma_purchase_preserves_inv(
    v: LedgerView,
    work_id: u64,
    licensee: Address,
    license_type: Seq<char>,
    duration_seconds: u64,
    payment_amount: int,
    current_time: u64,
)
    requires
        inv(v),
        work_exists(v, work_id),
        v.licenses.len() < u64::MAX,
        v.payments.len() < u64::MAX,
        0 <= payment_amount,
        v.stats.total_revenue + payment_amount <= max_amount(),
    ensures
        inv(
            purchase_license_transition(
                v,
                work_id,
                licensee,
                license_type,
                duration_seconds,
                payment_amount,
                current_time,
            ),
        ),
{
    lemma_record_payment_preserves_inv(
        v,
        work_id,
        licensee,
        payment_amount,
        "license"@,
        current_time,
    );
    let v1 = record_payment_transition(
        v,
        work_id,
        licensee,
        payment_amount,
        "license"@,
        current_time,
    );
    let v2 = purchase_license_transition(
        v,
        work_id,
        licensee,
        license_type,
        duration_seconds,
        payment_amount,
        current_time,
    );
    let l = v2.licenses.last();
    lemma_count_licenses_le_len(v.licenses, work_id);
    assert forall|i: int|
        0 <= i < v2.licenses.len() implies (#[trigger] v2.licenses[i]).license_id == i + 1 && 1
        <= v2.licenses[i].work_id <= v2.works.len() by {
        if i < v.licenses.len() {
            assert(v2.licenses[i] == v.licenses[i]);
        }
    }
    assert forall|i: int|
        0 <= i < v2.works.len() implies (#[trigger] v2.works[i]).license_count
        == count_licenses_for(v2.licenses, (i + 1) as u64) by {
        lemma_count_licenses_push(v.licenses, l, (i + 1) as u64);
        assert(v2.licenses =~= v.licenses.push(l));
        if i != work_id - 1 {
            assert(v2.works[i] == v.works[i]);
        }
    }
    assert forall|i: int|
        0 <= i < v2.works.len() implies (#[trigger] v2.works[i]).creator == v.works[i].creator by {
        if i != work_id - 1 {
            assert(v2.works[i] == v.works[i]);
        }
    }
    assert(creator_index_ok(v2));
}

/// Replacing a work's royalty terms preserves the ledger invariant.
pub proof fn lemma_update_config_preserves_inv(
    v: LedgerView,
    work_id: u64,
    primary_sale_percentage: u32,
    secondary_sale_percentage: u32,
    streaming_rate: int,
    minimum_license_fee: int,
)
    requires
        inv(v),
        work_exists(v, work_id),
        primary_sale_percentage <= 10000,
        secondary_sale_percentage <= 10000,
    ensures
        inv(
            update_config_transition(
                v,
                work_id,
                primary_sale_percentage,
                secondary_sale_percentage,
                streaming_rate,
                minimum_license_fee,
            ),
        ),
{
    let v1 = update_config_transition(
        v,
        work_id,
        primary_sale_percentage,
        secondary_sale_percentage,
        streaming_rate,
        minimum_license_fee,
    );
    assert forall|i: int|
        0 <= i < v1.configs.len() implies (#[trigger] v1.configs[i]).work_id == i + 1 by {
        if i != work_id - 1 {
            assert(v1.configs[i] == v.configs[i]);
        }
    }
    assert forall|i: int|
        0 <= i < v1.configs.len() implies (#[trigger] v1.configs[i]).primary_sale_percentage
        <= 10000 && v1.configs[i].secondary_sale_percentage <= 10000 by {
        if i != work_id - 1 {
            assert(v1.configs[i] == v.configs[i]);
        }
    }
}

/// Deactivating or reactivating a work preserves the ledger invariant.
pub proof fn lemma_set_active_preserves_inv(v: LedgerView, work_id: u64, active: bool)
    requires
        inv(v),
        work_exists(v, work_id),
    ensures
        inv(set_active_transition(v, work_id, active)),
{
    let v1 = set_active_transition(v, work_id, active);
    assert forall|i: int|
        0 <= i < v1.works.len() implies (#[trigger] v1.works[i]).work_id == i + 1
        && v1.works[i].license_count == count_licenses_for(v1.licenses, (i + 1) as u64)
        && v1.works[i].creator == v.works[i].creator by {
        if i != work_id - 1 {
            assert(v1.works[i] == v.works[i]);
        }
    }
    assert(creator_index_ok(v1));
}

/// The whole state of the registry.
pub struct RoyaltyContract {
    works: Vec<CreativeWork>,
    configs: Vec<RoyaltyConfig>,
    licenses: Vec<License>,
    payments: Vec<RoyaltyPayment>,
    creator_works: Vec<CreatorWorks>,
    stats: RoyaltyStats,
}

impl View for RoyaltyContract {
    type V = LedgerView;

    closed spec fn view(&self) -> LedgerView {
        LedgerView {
            works: self.works@.map_values(|w: CreativeWork| w@),
            configs: self.configs@.map_values(|c: RoyaltyConfig| c@),
            licenses: self.licenses@.map_values(|l: License| l@),
            payments: self.payments@.map_values(|p: RoyaltyPayment| p@),
            creators: self.creator_works@.map_values(|c: CreatorWorks| c@),
            stats: self.stats@,
        }
    }
}

impl RoyaltyContract {
    /// The ledger invariant, as a predicate on the state.
    pub open spec fn wf(&self) -> bool {
        inv(self@)
    }

    /// An empty registry: no records, zero-valued statistics.
    pub fn new() -> (r: RoyaltyContract)
        ensures
            r.wf(),
            r@ == empty_ledger(),
    {
        let r = RoyaltyContract {
            works: Vec::new(),
            configs: Vec::new(),
            licenses: Vec::new(),
            payments: Vec::new(),
            creator_works: Vec::new(),
            stats: RoyaltyStats {
                total_works: 0,
                total_licenses: 0,
                total_payments: 0,
                total_revenue: TokenAmount::zero(),
            },
        };
        proof {
            assert(r@.works =~= empty_ledger().works);
            assert(r@.configs =~= empty_ledger().configs);
            assert(r@.licenses =~= empty_ledger().licenses);
            assert(r@.payments =~= empty_ledger().payments);
            assert(r@.creators =~= empty_ledger().creators);
            assert(r@ == empty_ledger());
        }
        r
    }

    /// Assemble a ledger state from its records, exactly as given.
    ///
    /// This is the bridge for an embedding whose record store hands back a
    /// previously persisted state: the result holds precisely the given
    /// records, so it is well formed exactly when they are the records of
    /// a state this ledger produced. Every operation requires [`Self::wf`],
    /// so nothing is proved about a state assembled from corrupted
    /// records; [`Self::check_invariant`] decides at run time whether a
    /// state deserves that trust.
    pub fn assemble(
        works: Vec<CreativeWork>,
        configs: Vec<RoyaltyConfig>,
        licenses: Vec<License>,
        payments: Vec<RoyaltyPayment>,
        creator_works: Vec<CreatorWorks>,
        stats: RoyaltyStats,
    ) -> (r: RoyaltyContract)
        ensures
            r@ == (LedgerView {
                works: works@.map_values(|w: CreativeWork| w@),
                configs: configs@.map_values(|c: RoyaltyConfig| c@),
                licenses: licenses@.map_values(|l: License| l@),
                payments: payments@.map_values(|p: RoyaltyPayment| p@),
                creators: creator_works@.map_values(|c: CreatorWorks| c@),
                stats: stats@,
            }),
    {
        RoyaltyContract { works, configs, licenses, payments, creator_works, stats }
    }

    /// Decide the ledger invariant at run time: `true` exactly when the
    /// state is well formed. An embedding that assembles a state from a
    /// record store can thereby reject a corrupted store before operating
    /// on it.
    pub fn check_invariant(&self) -> (r: bool)
        ensures
            r == self.wf(),
    {
        let ghost v = self@;
        let wn = self.works.len();
        if self.configs.len() != wn {
            return false;
        }
        if self.stats.total_works != wn as u64 {
            return false;
        }
        if self.stats.total_licenses != self.licenses.len() as u64 {
            return false;
        }
        if self.stats.total_payments != self.payments.len() as u64 {
            return false;
        }
        if !self.check_work_ids() {
            return false;
        }
        if !self.check_config_rows() {
            return false;
        }
        if !self.check_license_rows() {
            return false;
        }
        if !self.check_payment_rows() {
            return false;
        }
        if !self.check_license_tallies() {
            return false;
        }
        if !self.check_revenue() {
            return false;
        }
        if !self.check_creators_distinct() {
            return false;
        }
        if !self.check_creator_entries_sound() {
            return false;
        }
        if !self.check_creator_entries_increasing() {
            return false;
        }
        proof {
            assert forall|i: int|
                0 <= i < v.payments.len() implies 0 <= (#[trigger] v.payments[i]).payment_amount
                <= max_amount() by {
                assert(v.payments[i] == self.payments@[i]@);
                crate::amount::lemma_value_in_range(self.payments@[i].payment_amount);
            }
            crate::amount::lemma_value_in_range(self.stats.total_revenue);
            assert(inv(v));
        }
        true
    }

    /// Whether every work carries the id its position demands.
    fn check_work_ids(&self) -> (r: bool)
        ensures
            r == (forall|i: int|
                0 <= i < self@.works.len() ==> (#[trigger] self@.works[i]).work_id == i + 1),
    {
        let ghost v = self@;
        let wn = self.works.len();
        let mut i: usize = 0;
        while i < wn
            invariant
                v == self@,
                wn == self.works@.len(),
                v.works.len() == wn,
                0 <= i <= wn,
                forall|a: int| 0 <= a < i ==> (#[trigger] v.works[a]).work_id == a + 1,
            decreases wn - i,
        {
            proof {
                assert(v.works[i as int] == self.works@[i as int]@);
            }
            if self.works[i].work_id != i as u64 + 1 {
                return false;
            }
            i = i + 1;
        }
        true
    }

    /// Whether every royalty configuration sits under its work's id with
    /// percentages of at most 10000 basis points.
    fn check_config_rows(&self) -> (r: bool)
        ensures
            r == (forall|i: int|
                0 <= i < self@.configs.len() ==> (#[trigger] self@.configs[i]).work_id == i + 1
                    && self@.configs[i].primary_sale_percentage <= 10000
                    && self@.configs[i].secondary_sale_percentage <= 10000),
    {
        let ghost v = self@;
        let cn = self.configs.len();
        let mut i: usize = 0;
        while i < cn
            invariant
                v == self@,
                cn == self.configs@.len(),
                v.configs.len() == cn,
                0 <= i <= cn,
                forall|a: int|
                    0 <= a < i ==> (#[trigger] v.configs[a]).work_id == a + 1
                        && v.configs[a].primary_sale_percentage <= 10000
                        && v.configs[a].secondary_sale_percentage <= 10000,
            decreases cn - i,
        {
            proof {
                assert(v.configs[i as int] == self.configs@[i as int]@);
            }
            let c = &self.configs[i];
            if c.work_id != i as u64 + 1 || c.primary_sale_percentage > 10000
                || c.secondary_sale_percentage > 10000 {
                return false;
            }
            i = i + 1;
        }
        true
    }

    /// Whether every license carries its positional id and references an
    /// existing work.
    fn check_license_rows(&self) -> (r: bool)
        ensures
            r == (forall|i: int|
                0 <= i < self@.licenses.len() ==> (#[trigger] self@.licenses[i]).license_id == i
                    + 1 && 1 <= self@.licenses[i].work_id <= self@.works.len()),
    {
        let ghost v = self@;
        let wn = self.works.len();
        let ln = self.licenses.len();
        let mut i: usize = 0;
        while i < ln
            invariant
                v == self@,
                ln == self.licenses@.len(),
                v.licenses.len() == ln,
                wn == v.works.len(),
                0 <= i <= ln,
                forall|a: int|
                    0 <= a < i ==> (#[trigger] v.licenses[a]).license_id == a + 1 && 1
                        <= v.licenses[a].work_id <= v.works.len(),
            decreases ln - i,
        {
            proof {
                assert(v.licenses[i as int] == self.licenses@[i as int]@);
            }
            let l = &self.licenses[i];
            if l.license_id != i as u64 + 1 || l.work_id < 1 || l.work_id > wn as u64 {
                return false;
            }
            i = i + 1;
        }
        true
    }

    /// Whether every payment carries its positional id and references an
    /// existing work.
    fn check_payment_rows(&self) -> (r: bool)
        ensures
            r == (forall|i: int|
                0 <= i < self@.payments.len() ==> (#[trigger] self@.payments[i]).payment_id == i
                    + 1 && 1 <= self@.payments[i].work_id <= self@.works.len()),
    {
        let ghost v = self@;
        let wn = self.works.len();
        let pn = self.payments.len();
        let mut i: usize = 0;
        while i < pn
            invariant
                v == self@,
                pn == self.payments@.len(),
                v.payments.len() == pn,
                wn == v.works.len(),
                0 <= i <= pn,
                forall|a: int|
                    0 <= a < i ==> (#[trigger] v.payments[a]).payment_id == a + 1 && 1
                        <= v.payments[a].work_id <= v.works.len(),
            decreases pn - i,
        {
            proof {
                assert(v.payments[i as int] == self.payments@[i as int]@);
            }
            let p = &self.payments[i];
            if p.payment_id != i as u64 + 1 || p.work_id < 1 || p.work_id > wn as u64 {
                return false;
            }
            i = i + 1;
        }
        true
    }

    /// Whether every work's license tally equals the number of licenses
    /// issued against it.
    fn check_license_tallies(&self) -> (r: bool)
        ensures
            r == (forall|i: int|
                0 <= i < self@.works.len() ==> (#[trigger] self@.works[i]).license_count
                    == count_licenses_for(self@.licenses, (i + 1) as u64)),
    {
        let ghost v = self@;
        let wn = self.works.len();
        let ln = self.licenses.len();
        let mut i: usize = 0;
        while i < wn
            invariant
                v == self@,
                wn == self.works@.len(),
                v.works.len() == wn,
                ln == self.licenses@.len(),
                v.licenses.len() == ln,
                0 <= i <= wn,
                forall|a: int|
                    0 <= a < i ==> (#[trigger] v.works[a]).license_count == count_licenses_for(
                        v.licenses,
                        (a + 1) as u64,
                    ),
            decreases wn - i,
        {
            let target: u64 = i as u64 + 1;
            let mut tally: u64 = 0;
            let mut j: usize = 0;
            while j < ln
                invariant
                    v == self@,
                    wn == self.works@.len(),
                    v.works.len() == wn,
                    ln == self.licenses@.len(),
                    v.licenses.len() == ln,
                    0 <= i < wn,
                    target == i + 1,
                    0 <= j <= ln,
                    tally <= j,
                    tally == count_licenses_for(v.licenses.take(j as int), target),
                    forall|a: int|
                        0 <= a < i ==> (#[trigger] v.works[a]).license_count
                            == count_licenses_for(v.licenses, (a + 1) as u64),
                decreases ln - j,
            {
                proof {
                    assert(v.licenses[j as int] == self.licenses@[j as int]@);
                    assert(v.licenses.take(j + 1).drop_last() =~= v.licenses.take(j as int));
                    assert(v.licenses.take(j + 1).last() == v.licenses[j as int]);
                }
                if self.licenses[j].work_id == target {
                    tally = tally + 1;
                }
                j = j + 1;
            }
            proof {
                assert(v.licenses.take(ln as int) =~= v.licenses);
                assert(v.works[i as int] == self.works@[i as int]@);
            }
            if self.works[i].license_count != tally {
                return false;
            }
            i = i + 1;
        }
        true
    }

    /// Whether the revenue total equals the exact sum of the recorded
    /// payment amounts.
    fn check_revenue(&self) -> (r: bool)
        ensures
            r == (self@.stats.total_revenue == sum_payment_amounts(self@.payments)),
    {
        let ghost v = self@;
        proof {
            assert forall|a: int|
                0 <= a < v.payments.len() implies 0 <= (#[trigger] v.payments[a]).payment_amount by {
                assert(v.payments[a] == self.payments@[a]@);
                crate::amount::lemma_value_in_range(self.payments@[a].payment_amount);
            }
        }
        let pn = self.payments.len();
        let mut acc = TokenAmount::zero();
        let mut i: usize = 0;
        while i < pn
            invariant
                v == self@,
                pn == self.payments@.len(),
                v.payments.len() == pn,
                0 <= i <= pn,
                acc@ == sum_payment_amounts(v.payments.take(i as int)),
                forall|a: int|
                    0 <= a < v.payments.len() ==> 0 <= (#[trigger] v.payments[a]).payment_amount,
            decreases pn - i,
        {
            proof {
                assert(v.payments[i as int] == self.payments@[i as int]@);
                assert(v.payments.take(i + 1).drop_last() =~= v.payments.take(i as int));
                assert(v.payments.take(i + 1).last() == v.payments[i as int]);
            }
            acc = match acc.checked_add(self.payments[i].payment_amount) {
                Some(a) => a,
                None => {
                    proof {
                        lemma_sum_take_le(v.payments, i + 1);
                        crate::amount::lemma_value_in_range(self.stats.total_revenue);
                    }
                    return false;
                },
            };
            i = i + 1;
        }
        proof {
            assert(v.payments.take(pn as int) =~= v.payments);
            crate::amount::lemma_value_injective(self.stats.total_revenue, acc);
        }
        self.stats.total_revenue == acc
    }

    /// Whether no principal has two entries in the creator index.
    fn check_creators_distinct(&self) -> (r: bool)
        ensures
            r == (forall|i: int, j: int|
                0 <= i < j < self@.creators.len() ==> (#[trigger] self@.creators[i]).creator != (
                #[trigger] self@.creators[j]).creator),
    {
        let ghost v = self@;
        let en = self.creator_works.len();
        let mut i: usize = 0;
        while i < en
            invariant
                v == self@,
                en == self.creator_works@.len(),
                v.creators.len() == en,
                0 <= i <= en,
                forall|a: int, b: int|
                    0 <= a < b < en && a < i ==> (#[trigger] v.creators[a]).creator != (
                    #[trigger] v.creators[b]).creator,
            decreases en - i,
        {
            let mut j: usize = i + 1;
            while j < en
                invariant
                    v == self@,
                    en == self.creator_works@.len(),
                    v.creators.len() == en,
                    0 <= i < en,
                    i < j <= en,
                    forall|a: int, b: int|
                        0 <= a < b < en && a < i ==> (#[trigger] v.creators[a]).creator != (
                        #[trigger] v.creators[b]).creator,
                    forall|b: int|
                        i < b < j ==> v.creators[i as int].creator != (
                        #[trigger] v.creators[b]).creator,
                decreases en - j,
            {
                proof {
                    assert(v.creators[i as int] == self.creator_works@[i as int]@);
                    assert(v.creators[j as int] == self.creator_works@[j as int]@);
                }
                if self.creator_works[i].creator == self.creator_works[j].creator {
                    return false;
                }
                j = j + 1;
            }
            i = i + 1;
        }
        true
    }

    /// Whether every creator-index entry lists only existing works of its
    /// own principal.
    fn check_creator_entries_sound(&self) -> (r: bool)
        ensures
            r == (forall|i: int, k: int|
                0 <= i < self@.creators.len() && 0 <= k < (
                #[trigger] self@.creators[i]).work_ids.len() ==> 1 <= (
                #[trigger] self@.creators[i].work_ids[k]) <= self@.works.len()
                    && self@.works[self@.creators[i].work_ids[k] - 1].creator
                    == self@.creators[i].creator),
    {
        let ghost v = self@;
        let wn = self.works.len();
        let en = self.creator_works.len();
        let mut i: usize = 0;
        while i < en
            invariant
                v == self@,
                en == self.creator_works@.len(),
                v.creators.len() == en,
                wn == self.works@.len(),
                v.works.len() == wn,
                0 <= i <= en,
                forall|a: int, k: int|
                    0 <= a < i && 0 <= k < (#[trigger] v.creators[a]).work_ids.len() ==> 1 <= (
                    #[trigger] v.creators[a].work_ids[k]) <= v.works.len()
                        && v.works[v.creators[a].work_ids[k] - 1].creator == v.creators[a].creator,
            decreases en - i,
        {
            proof {
                assert(v.creators[i as int] == self.creator_works@[i as int]@);
            }
            let kn = self.creator_works[i].work_ids.len();
            let mut k: usize = 0;
            while k < kn
                invariant
                    v == self@,
                    en == self.creator_works@.len(),
                    v.creators.len() == en,
                    wn == self.works@.len(),
                    v.works.len() == wn,
                    0 <= i < en,
                    v.creators[i as int] == self.creator_works@[i as int]@,
                    kn == v.creators[i as int].work_ids.len(),
                    0 <= k <= kn,
                    forall|a: int, m: int|
                        0 <= a < i && 0 <= m < (#[trigger] v.creators[a]).work_ids.len() ==> 1 <= (
                        #[trigger] v.creators[a].work_ids[m]) <= v.works.len()
                            && v.works[v.creators[a].work_ids[m] - 1].creator
                            == v.creators[a].creator,
                    forall|m: int|
                        0 <= m < k ==> 1 <= (#[trigger] v.creators[i as int].work_ids[m])
                            <= v.works.len() && v.works[v.creators[i as int].work_ids[m]
                            - 1].creator == v.creators[i as int].creator,
                decreases kn - k,
            {
                proof {
                    assert(v.creators[i as int].work_ids[k as int]
                        == self.creator_works@[i as int].work_ids@[k as int]);
                }
                let id = self.creator_works[i].work_ids[k];
                if id < 1 || id > wn as u64 {
                    return false;
                }
                proof {
                    assert(v.works[id - 1] == self.works@[(id - 1) as int]@);
                }
                if self.works[(id - 1) as usize].creator != self.creator_works[i].creator {
                    return false;
                }
                k = k + 1;
            }
            i = i + 1;
        }
        true
    }

    /// Whether every creator-index entry lists its work ids in strictly
    /// increasing order.
    fn check_creator_entries_increasing(&self) -> (r: bool)
        ensures
            r == (forall|i: int, k1: int, k2: int|
                0 <= i < self@.creators.len() && 0 <= k1 < k2 < (
                #[trigger] self@.creators[i]).work_ids.len() ==> (
                #[trigger] self@.creators[i].work_ids[k1]) < (
                #[trigger] self@.creators[i].work_ids[k2])),
    {
        let ghost v = self@;
        let en = self.creator_works.len();
        let mut i: usize = 0;
        while i < en
            invariant
                v == self@,
                en == self.creator_works@.len(),
                v.creators.len() == en,
                0 <= i <= en,
                forall|a: int, k: int|
                    0 <= a < i && 0 <= k < (#[trigger] v.creators[a]).work_ids.len() - 1 ==> (
                    #[trigger] v.creators[a].work_ids[k]) < v.creators[a].work_ids[k + 1],
            decreases en - i,
        {
            proof {
                assert(v.creators[i as int] == self.creator_works@[i as int]@);
            }
            let kn = self.creator_works[i].work_ids.len();
            let mut k: usize = 0;
            while k + 1 < kn
                invariant
                    v == self@,
                    en == self.creator_works@.len(),
                    v.creators.len() == en,
                    0 <= i < en,
                    v.creators[i as int] == self.creator_works@[i as int]@,
                    kn == v.creators[i as int].work_ids.len(),
                    0 <= k <= kn,
                    kn > 0 ==> k < kn,
                    forall|a: int, m: int|
                        0 <= a < i && 0 <= m < (#[trigger] v.creators[a]).work_ids.len() - 1 ==> (
                        #[trigger] v.creators[a].work_ids[m]) < v.creators[a].work_ids[m + 1],
                    forall|m: int|
                        0 <= m < k ==> (#[trigger] v.creators[i as int].work_ids[m])
                            < v.creators[i as int].work_ids[m + 1],
                decreases kn - k,
            {
                proof {
                    assert(v.creators[i as int].work_ids[k as int]
                        == self.creator_works@[i as int].work_ids@[k as int]);
                    assert(v.creators[i as int].work_ids[k + 1]
                        == self.creator_works@[i as int].work_ids@[k + 1]);
                }
                if self.creator_works[i].work_ids[k] >= self.creator_works[i].work_ids[k + 1] {
                    return false;
                }
                k = k + 1;
            }
            i = i + 1;
        }
        proof {
            assert forall|i: int, k1: int, k2: int|
                0 <= i < v.creators.len() && 0 <= k1 < k2 < (
            #[trigger] v.creators[i]).work_ids.len() implies (
            #[trigger] v.creators[i].work_ids[k1]) < (#[trigger] v.creators[i].work_ids[k2]) by {
                lemma_adjacent_implies_sorted(v.creators[i].work_ids, k1, k2);
            }
        }
        true
    }

    /// The registered work with the given id, or `NotFound` if no such id
    /// was ever assigned.
    pub fn get_work(&self, work_id: u64) -> (r: Result<CreativeWork, Error>)
        ensures
            1 <= work_id <= self@.works.len() ==> (r matches Ok(w) && w@ == self@.works[work_id
                - 1]),
            !(1 <= work_id <= self@.works.len()) ==> r == Err::<CreativeWork, Error>(
                Error::NotFound,
            ),
    {
        if 1 <= work_id && work_id <= self.works.len() as u64 {
            Ok(self.works[(work_id - 1) as usize].clone())
        } else {
            Err(Error::NotFound)
        }
    }

    /// The royalty configuration of the given work, or `NotFound`.
    pub fn get_royalty_config(&self, work_id: u64) -> (r: Result<RoyaltyConfig, Error>)
        ensures
            1 <= work_id <= self@.configs.len() ==> (r matches Ok(c) && c@ == self@.configs[work_id
                - 1]),
            !(1 <= work_id <= self@.configs.len()) ==> r == Err::<RoyaltyConfig, Error>(
                Error::NotFound,
            ),
    {
        if 1 <= work_id && work_id <= self.configs.len() as u64 {
            Ok(self.configs[(work_id - 1) as usize])
        } else {
            Err(Error::NotFound)
        }
    }

    /// The license with the given id, or `NotFound`.
    pub fn get_license(&self, license_id: u64) -> (r: Result<License, Error>)
        ensures
            1 <= license_id <= self@.licenses.len() ==> (r matches Ok(l) && l@
                == self@.licenses[license_id - 1]),
            !(1 <= license_id <= self@.licenses.len()) ==> r == Err::<License, Error>(
                Error::NotFound,
            ),
    {
        if 1 <= license_id && license_id <= self.licenses.len() as u64 {
            Ok(self.licenses[(license_id - 1) as usize].clone())
        } else {
            Err(Error::NotFound)
        }
    }

    /// The payment with the given id, or `NotFound`.
    pub fn get_payment(&self, payment_id: u64) -> (r: Result<RoyaltyPayment, Error>)
        ensures
            1 <= payment_id <= self@.payments.len() ==> (r matches Ok(p) && p@
                == self@.payments[payment_id - 1]),
            !(1 <= payment_id <= self@.payments.len()) ==> r == Err::<RoyaltyPayment, Error>(
                Error::NotFound,
            ),
    {
        if 1 <= payment_id && payment_id <= self.payments.len() as u64 {
            Ok(self.payments[(payment_id - 1) as usize].clone())
        } else {
            Err(Error::NotFound)
        }
    }

    /// The aggregate statistics; zero-valued while nothing was recorded.
    pub fn get_royalty_stats(&self) -> (r: RoyaltyStats)
        ensures
            r@ == self@.stats,
    {
        self.stats
    }

    /// Register a new creative work together with its royalty terms.
    ///
    /// The embedding must have authenticated `creator` before the call.
    /// Fails with `InvalidConfiguration`, and changes nothing, exactly
    /// when a percentage exceeds 10000 basis points; otherwise the work is
    /// created active, with the next sequential id, and that id is
    /// returned.
    pub fn register_work(
        &mut self,
        creator: Address,
        title: String,
        description: String,
        content_type: String,
        primary_sale_percentage: u32,
        secondary_sale_percentage: u32,
        streaming_rate: TokenAmount,
        minimum_license_fee: TokenAmount,
        current_time: u64,
    ) -> (r: Result<u64, Error>)
        requires
            old(self).wf(),
            old(self)@.works.len() < u64::MAX,
        ensures
            final(self).wf(),
            primary_sale_percentage <= 10000 && secondary_sale_percentage <= 10000 ==> (r
                matches Ok(id) && id == old(self)@.works.len() + 1 && final(self)@
                == register_transition(
                old(self)@,
                creator,
                title@,
                description@,
                content_type@,
                primary_sale_percentage,
                secondary_sale_percentage,
                streaming_rate@,
                minimum_license_fee@,
                current_time,
            )),
            primary_sale_percentage > 10000 || secondary_sale_percentage > 10000 ==> r == Err::<
                u64,
                Error,
            >(Error::InvalidConfiguration) && final(self)@ == old(self)@,
    {
        if primary_sale_percentage > 10000 || secondary_sale_percentage > 10000 {
            return Err(Error::InvalidConfiguration);
        }
        let ghost v0 = self@;
        let work_id = self.works.len() as u64 + 1;
        let work = CreativeWork {
            work_id,
            creator,
            title,
            description,
            creation_time: current_time,
            content_type,
            is_active: true,
            license_count: 0,
        };
        let config = RoyaltyConfig {
            work_id,
            primary_sale_percentage,
            secondary_sale_percentage,
            streaming_rate,
            minimum_license_fee,
        };
        let ghost wv = work@;
        self.works.push(work);
        self.configs.push(config);
        Self::index_append(&mut self.creator_works, creator, work_id);
        self.stats.total_works = self.stats.total_works + 1;
        proof {
            let v1 = register_transition(
                v0,
                creator,
                wv.title,
                wv.description,
                wv.content_type,
                primary_sale_percentage,
                secondary_sale_percentage,
                streaming_rate@,
                minimum_license_fee@,
                current_time,
            );
            assert(self@.works =~= v1.works);
            assert(self@.configs =~= v1.configs);
            assert(self@ =~= v1);
            lemma_register_preserves_inv(
                v0,
                creator,
                wv.title,
                wv.description,
                wv.content_type,
                primary_sale_percentage,
                secondary_sale_percentage,
                streaming_rate@,
                minimum_license_fee@,
                current_time,
            );
        }
        Ok(work_id)
    }

    /// Append a freshly assigned work id to the creator's index entry,
    /// creating the entry if the principal has none yet.
    fn index_append(creator_works: &mut Vec<CreatorWorks>, creator: Address, work_id: u64)
        ensures
            final(creator_works)@.map_values(|c: CreatorWorks| c@) == index_push(
                old(creator_works)@.map_values(|c: CreatorWorks| c@),
                creator,
                work_id,
            ),
    {
        let ghost cs = creator_works@.map_values(|c: CreatorWorks| c@);
        proof {
            assert(cs.len() == creator_works@.len());
        }
        let n = creator_works.len();
        let mut i: usize = 0;
        while i < n
            invariant
                n == creator_works@.len(),
                0 <= i <= n,
                creator_works@ == old(creator_works)@,
                cs == creator_works@.map_values(|c: CreatorWorks| c@),
                cs.len() == n,
                forall|j: int| 0 <= j < i ==> (#[trigger] cs[j]).creator != creator,
            decreases n - i,
        {
            proof {
                assert(cs[i as int] == creator_works@[i as int]@);
            }
            if creator_works[i].creator == creator {
                let ghost pre = creator_works@;
                creator_works[i].work_ids.push(work_id);
                proof {
                    lemma_index_push_found(cs, creator, work_id, i as int);
                    assert forall|j: int|
                        0 <= j < cs.len() implies creator_works@.map_values(|c: CreatorWorks| c@)[j]
                        == cs.update(
                        i as int,
                        CreatorWorksView {
                            creator,
                            work_ids: cs[i as int].work_ids.push(work_id),
                        },
                    )[j] by {
                        assert(creator_works@[j]@ == if j == i as int {
                            CreatorWorksView {
                                creator,
                                work_ids: cs[i as int].work_ids.push(work_id),
                            }
                        } else {
                            pre[j]@
                        });
                    }
                    assert(creator_works@.map_values(|c: CreatorWorks| c@) =~= cs.update(
                        i as int,
                        CreatorWorksView {
                            creator,
                            work_ids: cs[i as int].work_ids.push(work_id),
                        },
                    ));
                }
                return ;
            }
            i = i + 1;
        }
        let mut fresh_ids: Vec<u64> = Vec::new();
        fresh_ids.push(work_id);
        creator_works.push(CreatorWorks { creator, work_ids: fresh_ids });
        proof {
            lemma_index_push_absent(cs, creator, work_id);
            assert forall|j: int|
                0 <= j < cs.len() + 1 implies creator_works@.map_values(|c: CreatorWorks| c@)[j]
                == cs.push(CreatorWorksView { creator, work_ids: seq![work_id] })[j] by {
                if j < cs.len() {
                    assert(creator_works@[j] == old(creator_works)@[j]);
                } else {
                    assert(creator_works@[j]@.work_ids =~= seq![work_id]);
                    assert(creator_works@[j]@ =~= CreatorWorksView {
                        creator,
                        work_ids: seq![work_id],
                    });
                }
            }
            assert(creator_works@.map_values(|c: CreatorWorks| c@) =~= cs.push(
                CreatorWorksView { creator, work_ids: seq![work_id] },
            ));
        }
    }

    /// Record a royalty payment (a sale, a stream, a license fee) for an
    /// existing work.
    ///
    /// Fails with `NotFound`, and changes nothing, exactly when the work
    /// does not exist; otherwise the payment is stored under the next
    /// sequential id, which is returned, and the statistics grow by one
    /// payment and by exactly the paid amount.
    pub fn record_payment(
        &mut self,
        work_id: u64,
        payer: Address,
        payment_amount: TokenAmount,
        payment_type: String,
        current_time: u64,
    ) -> (r: Result<u64, Error>)
        requires
            old(self).wf(),
            old(self)@.payments.len() < u64::MAX,
            old(self)@.stats.total_revenue + payment_amount@ <= max_amount(),
        ensures
            final(self).wf(),
            work_exists(old(self)@, work_id) ==> (r matches Ok(id) && id == old(self)@.payments.len() + 1 && final(self)@ == record_payment_transition(
                old(self)@,
                work_id,
                payer,
                payment_amount@,
                payment_type@,
                current_time,
            )),
            !work_exists(old(self)@, work_id) ==> r == Err::<u64, Error>(Error::NotFound) && final(self)@ == old(self)@,
    {
        if !(1 <= work_id && work_id <= self.works.len() as u64) {
            return Err(Error::NotFound);
        }
        let ghost v0 = self@;
        let payment_id = self.payments.len() as u64 + 1;
        let payment = RoyaltyPayment {
            payment_id,
            work_id,
            payer,
            payment_time: current_time,
            payment_amount,
            payment_type,
        };
        let ghost pv = payment@;
        self.payments.push(payment);
        self.stats.total_payments = self.stats.total_payments + 1;
        let total = match self.stats.total_revenue.checked_add(payment_amount) {
            Some(total) => total,
            None => {
                proof {
                    assert(false);
                }
                TokenAmount::zero()
            },
        };
        self.stats.total_revenue = total;
        proof {
            let v1 = record_payment_transition(
                v0,
                work_id,
                payer,
                pv.payment_amount,
                pv.payment_type,
                current_time,
            );
            assert(self@.payments =~= v1.payments);
            assert(self@ =~= v1);
            lemma_record_payment_preserves_inv(
                v0,
                work_id,
                payer,
                pv.payment_amount,
                pv.payment_type,
                current_time,
            );
        }
        Ok(payment_id)
    }

    /// Purchase a license for an active work.
    ///
    /// The embedding must have authenticated `licensee` before the call.
    /// Fails with `NotFound` when the work does not exist, `WorkInactive`
    /// when it is deactivated, and `PaymentTooLow` exactly when the
    /// payment is strictly below the configured minimum license fee; every
    /// failure changes nothing. On success the fee payment is recorded
    /// with kind "license", the license is stored under the next
    /// sequential id, which is returned, and a zero `duration_seconds`
    /// makes the license perpetual.
    pub fn purchase_license(
        &mut self,
        work_id: u64,
        licensee: Address,
        license_type: String,
        duration_seconds: u64,
        payment_amount: TokenAmount,
        current_time: u64,
    ) -> (r: Result<u64, Error>)
        requires
            old(self).wf(),
            old(self)@.licenses.len() < u64::MAX,
            old(self)@.payments.len() < u64::MAX,
            current_time + duration_seconds <= u64::MAX,
            old(self)@.stats.total_revenue + payment_amount@ <= max_amount(),
        ensures
            final(self).wf(),
            !work_exists(old(self)@, work_id) ==> r == Err::<u64, Error>(Error::NotFound) && final(self)@ == old(self)@,
            work_exists(old(self)@, work_id) && !work_active(old(self)@, work_id) ==> r == Err::<
                u64,
                Error,
            >(Error::WorkInactive) && final(self)@ == old(self)@,
            work_active(old(self)@, work_id) && payment_amount@ < old(self)@.configs[work_id
                - 1].minimum_license_fee ==> r == Err::<u64, Error>(Error::PaymentTooLow) && final(self)@ == old(self)@,
            work_active(old(self)@, work_id) && payment_amount@ >= old(self)@.configs[work_id
                - 1].minimum_license_fee ==> (r matches Ok(id) && id == old(self)@.licenses.len()
                + 1 && final(self)@ == purchase_license_transition(
                old(self)@,
                work_id,
                licensee,
                license_type@,
                duration_seconds,
                payment_amount@,
                current_time,
            )),
    {
        let work = match self.get_work(work_id) {
            Ok(w) => w,
            Err(e) => {
                return Err(e);
            },
        };
        if !work.is_active {
            return Err(Error::WorkInactive);
        }
        let config = match self.get_royalty_config(work_id) {
            Ok(c) => c,
            Err(e) => {
                return Err(e);
            },
        };
        if payment_amount.lt(&config.minimum_license_fee) {
            return Err(Error::PaymentTooLow);
        }
        let ghost v0 = self@;
        let license_id = self.licenses.len() as u64 + 1;
        let expiration_time = if duration_seconds == 0 {
            0
        } else {
            current_time + duration_seconds
        };
        let license = License {
            license_id,
            work_id,
            licensee,
            license_type,
            issue_time: current_time,
            expiration_time,
            payment_amount,
        };
        let ghost lv = license@;
        match self.record_payment(
            work_id,
            licensee,
            payment_amount,
            "license".to_owned(),
            current_time,
        ) {
            Ok(_) => {},
            Err(_) => {
                proof {
                    assert(false);
                }
            },
        };
        let n = self.works.len();
        proof {
            lemma_count_licenses_le_len(v0.licenses, work_id);
            assert(v0.works[work_id - 1].license_count < u64::MAX);
            assert(self@.works == v0.works);
            assert(n == self@.works.len());
            assert(self.works@[work_id - 1]@ == self@.works[work_id - 1]);
        }
        let previous_count = self.works[(work_id - 1) as usize].license_count;
        self.works[(work_id - 1) as usize].license_count = previous_count + 1;
        self.licenses.push(license);
        self.stats.total_licenses = self.stats.total_licenses + 1;
        proof {
            let v2 = purchase_license_transition(
                v0,
                work_id,
                licensee,
                lv.license_type,
                duration_seconds,
                payment_amount@,
                current_time,
            );
            assert forall|j: int| 0 <= j < v2.works.len() implies self@.works[j] == v2.works[j] by {
                assert(self@.works[j] == self.works@[j]@);
            }
            assert(self@.works =~= v2.works);
            assert forall|j: int|
                0 <= j < v2.licenses.len() implies self@.licenses[j] == v2.licenses[j] by {
                assert(self@.licenses[j] == self.licenses@[j]@);
            }
            assert(self@.licenses =~= v2.licenses);
            assert(self@ =~= v2);
            lemma_purchase_preserves_inv(
                v0,
                work_id,
                licensee,
                lv.license_type,
                duration_seconds,
                payment_amount@,
                current_time,
            );
        }
        Ok(license_id)
    }

    /// Replace a work's royalty terms in full; partial updates are not
    /// supported.
    ///
    /// The embedding must have authenticated `creator` before the call.
    /// Fails with `NotFound` when the work does not exist, `Unauthorized`
    /// when the caller is not the work's creator, and
    /// `InvalidConfiguration` when a percentage exceeds 10000 basis
    /// points; every failure changes nothing.
    pub fn update_royalty_config(
        &mut self,
        work_id: u64,
        creator: Address,
        primary_sale_percentage: u32,
        secondary_sale_percentage: u32,
        streaming_rate: TokenAmount,
        minimum_license_fee: TokenAmount,
    ) -> (r: Result<(), Error>)
        requires
            old(self).wf(),
        ensures
            final(self).wf(),
            !work_exists(old(self)@, work_id) ==> r == Err::<(), Error>(Error::NotFound) && final(self)@ == old(self)@,
            work_exists(old(self)@, work_id) && old(self)@.works[work_id - 1].creator != creator
                ==> r == Err::<(), Error>(Error::Unauthorized) && final(self)@ == old(self)@,
            work_exists(old(self)@, work_id) && old(self)@.works[work_id - 1].creator == creator
                && (primary_sale_percentage > 10000 || secondary_sale_percentage > 10000) ==> r
                == Err::<(), Error>(Error::InvalidConfiguration) && final(self)@ == old(self)@,
            work_exists(old(self)@, work_id) && old(self)@.works[work_id - 1].creator == creator
                && primary_sale_percentage <= 10000 && secondary_sale_percentage <= 10000 ==> r
                == Ok::<(), Error>(()) && final(self)@ == update_config_transition(
                old(self)@,
                work_id,
                primary_sale_percentage,
                secondary_sale_percentage,
                streaming_rate@,
                minimum_license_fee@,
            ),
    {
        let work = match self.get_work(work_id) {
            Ok(w) => w,
            Err(e) => {
                return Err(e);
            },
        };
        if work.creator != creator {
            return Err(Error::Unauthorized);
        }
        if primary_sale_percentage > 10000 || secondary_sale_percentage > 10000 {
            return Err(Error::InvalidConfiguration);
        }
        let ghost v0 = self@;
        let config = RoyaltyConfig {
            work_id,
            primary_sale_percentage,
            secondary_sale_percentage,
            streaming_rate,
            minimum_license_fee,
        };
        let n = self.configs.len();
        proof {
            assert(n == self@.configs.len());
        }
        self.configs[(work_id - 1) as usize] = config;
        proof {
            let v1 = update_config_transition(
                v0,
                work_id,
                primary_sale_percentage,
                secondary_sale_percentage,
                streaming_rate@,
                minimum_license_fee@,
            );
            assert forall|j: int|
                0 <= j < v1.configs.len() implies self@.configs[j] == v1.configs[j] by {
                assert(self@.configs[j] == self.configs@[j]@);
            }
            assert(self@.configs =~= v1.configs);
            assert(self@ =~= v1);
            lemma_update_config_preserves_inv(
                v0,
                work_id,
                primary_sale_percentage,
                secondary_sale_percentage,
                streaming_rate@,
                minimum_license_fee@,
            );
        }
        Ok(())
    }

    /// Mark a work as inactive or active again.
    fn set_active(&mut self, work_id: u64, creator: Address, active: bool) -> (r: Result<
        (),
        Error,
    >)
        requires
            old(self).wf(),
        ensures
            final(self).wf(),
            !work_exists(old(self)@, work_id) ==> r == Err::<(), Error>(Error::NotFound) && final(self)@ == old(self)@,
            work_exists(old(self)@, work_id) && old(self)@.works[work_id - 1].creator != creator
                ==> r == Err::<(), Error>(Error::Unauthorized) && final(self)@ == old(self)@,
            work_exists(old(self)@, work_id) && old(self)@.works[work_id - 1].creator == creator
                ==> r == Ok::<(), Error>(()) && final(self)@ == set_active_transition(
                old(self)@,
                work_id,
                active,
            ),
    {
        let work = match self.get_work(work_id) {
            Ok(w) => w,
            Err(e) => {
                return Err(e);
            },
        };
        if work.creator != creator {
            return Err(Error::Unauthorized);
        }
        let ghost v0 = self@;
        let ghost pre = self.works@;
        let n = self.works.len();
        proof {
            assert(n == self@.works.len());
        }
        self.works[(work_id - 1) as usize].is_active = active;
        proof {
            let v1 = set_active_transition(v0, work_id, active);
            assert forall|j: int| 0 <= j < v1.works.len() implies self@.works[j] == v1.works[j] by {
                assert(self@.works[j] == self.works@[j]@);
                if j != work_id - 1 {
                    assert(pre[j]@ == v0.works[j]);
                }
            }
            assert(self@.works =~= v1.works);
            assert(self@ =~= v1);
            lemma_set_active_preserves_inv(v0, work_id, active);
        }
        Ok(())
    }

    /// Withdraw a work from licensing.
    ///
    /// The embedding must have authenticated `creator` before the call.
    /// Fails with `NotFound` when the work does not exist and
    /// `Unauthorized` when the caller is not the work's creator; every
    /// failure changes nothing.
    pub fn deactivate_work(&mut self, work_id: u64, creator: Address) -> (r: Result<(), Error>)
        requires
            old(self).wf(),
        ensures
            final(self).wf(),
            !work_exists(old(self)@, work_id) ==> r == Err::<(), Error>(Error::NotFound) && final(self)@ == old(self)@,
            work_exists(old(self)@, work_id) && old(self)@.works[work_id - 1].creator != creator
                ==> r == Err::<(), Error>(Error::Unauthorized) && final(self)@ == old(self)@,
            work_exists(old(self)@, work_id) && old(self)@.works[work_id - 1].creator == creator
                ==> r == Ok::<(), Error>(()) && final(self)@ == set_active_transition(
                old(self)@,
                work_id,
                false,
            ),
    {
        self.set_active(work_id, creator, false)
    }

    /// Reopen a previously deactivated work for licensing.
    ///
    /// The embedding must have authenticated `creator` before the call.
    /// Fails exactly as `deactivate_work` does; every failure changes
    /// nothing.
    pub fn reactivate_work(&mut self, work_id: u64, creator: Address) -> (r: Result<(), Error>)
        requires
            old(self).wf(),
        ensures
            final(self).wf(),
            !work_exists(old(self)@, work_id) ==> r == Err::<(), Error>(Error::NotFound) && final(self)@ == old(self)@,
            work_exists(old(self)@, work_id) && old(self)@.works[work_id - 1].creator != creator
                ==> r == Err::<(), Error>(Error::Unauthorized) && final(self)@ == old(self)@,
            work_exists(old(self)@, work_id) && old(self)@.works[work_id - 1].creator == creator
                ==> r == Ok::<(), Error>(()) && final(self)@ == set_active_transition(
                old(self)@,
                work_id,
                true,
            ),
    {
        self.set_active(work_id, creator, true)
    }

    /// The ids of the works the given principal registered, oldest first;
    /// empty if the principal never registered a work.
    pub fn get_creator_works(&self, creator: Address) -> (r: Vec<u64>)
        ensures
            r@ == creator_work_ids(self@.creators, creator),
    {
        let ghost cs = self@.creators;
        let n = self.creator_works.len();
        let mut i: usize = 0;
        while i < n
            invariant
                n == self.creator_works@.len(),
                cs == self@.creators,
                cs.len() == n,
                0 <= i <= n,
                forall|j: int| 0 <= j < i ==> (#[trigger] cs[j]).creator != creator,
            decreases n - i,
        {
            proof {
                assert(cs[i as int] == self.creator_works@[i as int]@);
            }
            if self.creator_works[i].creator == creator {
                let ids = self.creator_works[i].work_ids.clone();
                proof {
                    lemma_creator_work_ids_found(cs, creator, i as int);
                    assert(ids@ =~= cs[i as int].work_ids);
                }
                return ids;
            }
            i = i + 1;
        }
        proof {
            lemma_creator_work_ids_absent(cs, creator);
        }
        Vec::new()
    }

    /// The ids of all licenses issued against the given work, in issuance
    /// order; empty if there are none or the work does not exist.
    pub fn get_work_licenses(&self, work_id: u64) -> (r: Vec<u64>)
        ensures
            r@ == license_ids_for(self@.licenses, work_id),
    {
        let ghost ls = self@.licenses;
        let n = self.licenses.len();
        let mut out: Vec<u64> = Vec::new();
        let mut i: usize = 0;
        while i < n
            invariant
                n == self.licenses@.len(),
                ls == self@.licenses,
                ls.len() == n,
                0 <= i <= n,
                out@ == license_ids_for(ls.take(i as int), work_id),
            decreases n - i,
        {
            proof {
                assert(ls[i as int] == self.licenses@[i as int]@);
                assert(ls.take(i + 1).drop_last() =~= ls.take(i as int));
                assert(ls.take(i + 1).last() == ls[i as int]);
            }
            let license = &self.licenses[i];
            if license.work_id == work_id {
                out.push(license.license_id);
                proof {
                    assert(out@ =~= license_ids_for(ls.take(i as int), work_id) + seq![
                        ls[i as int].license_id,
                    ]);
                }
            } else {
                proof {
                    assert(out@ =~= license_ids_for(ls.take(i as int), work_id)
                        + Seq::<u64>::empty());
                }
            }
            i = i + 1;
        }
        proof {
            assert(ls.take(n as int) =~= ls);
        }
        out
    }

    /// The ids of all payments recorded for the given work, in record
    /// order; empty if there are none or the work does not exist.
    pub fn get_work_payments(&self, work_id: u64) -> (r: Vec<u64>)
        ensures
            r@ == payment_ids_for(self@.payments, work_id),
    {
        let ghost ps = self@.payments;
        let n = self.payments.len();
        let mut out: Vec<u64> = Vec::new();
        let mut i: usize = 0;
        while i < n
            invariant
                n == self.payments@.len(),
                ps == self@.payments,
                ps.len() == n,
                0 <= i <= n,
                out@ == payment_ids_for(ps.take(i as int), work_id),
            decreases n - i,
        {
            proof {
                assert(ps[i as int] == self.payments@[i as int]@);
                assert(ps.take(i + 1).drop_last() =~= ps.take(i as int));
                assert(ps.take(i + 1).last() == ps[i as int]);
            }
            let payment = &self.payments[i];
            if payment.work_id == work_id {
                out.push(payment.payment_id);
                proof {
                    assert(out@ =~= payment_ids_for(ps.take(i as int), work_id) + seq![
                        ps[i as int].payment_id,
                    ]);
                }
            } else {
                proof {
                    assert(out@ =~= payment_ids_for(ps.take(i as int), work_id)
                        + Seq::<u64>::empty());
                }
            }
            i = i + 1;
        }
        proof {
            assert(ps.take(n as int) =~= ps);
        }
        out
    }

    /// Whether the license is valid at the given time. Absence and expiry
    /// both yield `false`, never an error.
    pub fn verify_license(&self, license_id: u64, current_time: u64) -> (r: bool)
        ensures
            r == license_valid(self@, license_id, current_time),
    {
        if 1 <= license_id && license_id <= self.licenses.len() as u64 {
            let exp = self.licenses[(license_id - 1) as usize].expiration_time;
            exp == 0 || current_time < exp
        } else {
            false
        }
    }
}

/// A prefix of the payments sums to at most the whole, once no amount is
/// negative.
proof fn lemma_sum_take_le(payments: Seq<RoyaltyPaymentView>, j: int)
    requires
        0 <= j <= payments.len(),
        forall|i: int| 0 <= i < payments.len() ==> 0 <= (#[trigger] payments[i]).payment_amount,
    ensures
        sum_payment_amounts(payments.take(j)) <= sum_payment_amounts(payments),
    decreases payments.len() - j,
{
    if j == payments.len() {
        assert(payments.take(j) =~= payments);
    } else {
        lemma_sum_take_le(payments, j + 1);
        assert(payments.take(j + 1).drop_last() =~= payments.take(j));
        assert(payments.take(j + 1).last() == payments[j]);
    }
}

/// In a sequence whose adjacent elements increase, every earlier element
/// is below every later one.
proof fn lemma_adjacent_implies_sorted(ids: Seq<u64>, k1: int, k2: int)
    requires
        forall|k: int| 0 <= k < ids.len() - 1 ==> (#[trigger] ids[k]) < ids[k + 1],
        0 <= k1 < k2 < ids.len(),
    ensures
        ids[k1] < ids[k2],
    decreases k2 - k1,
{
    assert(ids[k2 - 1] < ids[k2]);
    if k2 > k1 + 1 {
        lemma_adjacent_implies_sorted(ids, k1, k2 - 1);
    }
}

/// Work ids are assigned sequentially with no gaps or repeats, whoever
/// registers: in every well-formed ledger the i-th registered work carries
/// id `i + 1`, and a successful registration appends a work whose id is
/// one more than the count of works before it.
pub proof fn lemma_work_ids_sequential(
    v: LedgerView,
    creator: Address,
    title: Seq<char>,
    description: Seq<char>,
    content_type: Seq<char>,
    primary_sale_percentage: u32,
    secondary_sale_percentage: u32,
    streaming_rate: int,
    minimum_license_fee: int,
    current_time: u64,
)
    requires
        inv(v),
        v.works.len() < u64::MAX,
    ensures
        forall|i: int| 0 <= i < v.works.len() ==> (#[trigger] v.works[i]).work_id == i + 1,
        register_transition(
            v,
            creator,
            title,
            description,
            content_type,
            primary_sale_percentage,
            secondary_sale_percentage,
            streaming_rate,
            minimum_license_fee,
            current_time,
        ).works.len() == v.works.len() + 1,
        register_transition(
            v,
            creator,
            title,
            description,
            content_type,
            primary_sale_percentage,
            secondary_sale_percentage,
            streaming_rate,
            minimum_license_fee,
            current_time,
        ).works.last().work_id == v.works.len() + 1,
{
}

/// A perpetual license (expiration time 0) is valid at every timestamp,
/// and a license id that was never issued is never valid.
pub proof fn lemma_license_validity_edges(v: LedgerView, license_id: u64, now: u64)
    ensures
        1 <= license_id <= v.licenses.len() && v.licenses[license_id - 1].expiration_time == 0
            ==> license_valid(v, license_id, now),
        license_id < 1 || license_id > v.licenses.len() ==> !license_valid(v, license_id, now),
{
}

/// In every well-formed ledger the revenue total equals the exact sum of
/// the amounts of every payment ever recorded.
pub proof fn lemma_revenue_is_exact_sum(v: LedgerView)
    requires
        inv(v),
    ensures
        v.stats.total_revenue == sum_payment_amounts(v.payments),
{
}

} // verus!
