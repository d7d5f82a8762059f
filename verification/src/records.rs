//! The record types of the registry.
//!
//! A record is plain data: principals are identities with equality, free-form
//! text is a `String`, timestamps are seconds as `u64`, and monetary fields
//! are 256-bit [`TokenAmount`]s. Each record type has a mathematical view
//! over which the ledger's contracts are stated.

use vstd::prelude::*;
use crate::amount::TokenAmount;

verus! {

/// The identity of a principal: a creator, licensee, or payer.
///
/// The embedding authenticates callers and maps each authenticated
/// principal to a distinct identity; the ledger only compares identities.
#[derive(Clone, Copy, PartialEq, Eq, Structural, Debug)]
pub struct Address {
    /// A number that is distinct for distinct principals.
    pub id: u64,
}

/// Why an operation was refused. Every failure leaves the ledger unchanged.
#[derive(Clone, Copy, PartialEq, Eq, Structural, Debug)]
pub enum Error {
    /// The caller is not the principal the operation requires.
    Unauthorized,
    /// The referenced work, license, or payment does not exist.
    NotFound,
    /// A royalty percentage exceeds 10000 basis points.
    InvalidConfiguration,
    /// Licensing was attempted against a deactivated work.
    WorkInactive,
    /// The payment is below the configured minimum license fee.
    PaymentTooLow,
}

/// A registered creative work.
pub struct CreativeWork {
    /// Unique id, assigned sequentially from 1.
    pub work_id: u64,
    /// The principal that registered the work.
    pub creator: Address,
    /// Free-form title.
    pub title: String,
    /// Free-form description.
    pub description: String,
    /// Timestamp of registration.
    pub creation_time: u64,
    /// Free-form category, such as "image" or "music".
    pub content_type: String,
    /// Whether new licenses may be purchased.
    pub is_active: bool,
    /// Number of licenses ever issued against this work.
    pub license_count: u64,
}

/// The mathematical view of a [`CreativeWork`].
#[verifier::ext_equal]
pub struct CreativeWorkView {
    pub work_id: u64,
    pub creator: Address,
    pub title: Seq<char>,
    pub description: Seq<char>,
    pub creation_time: u64,
    pub content_type: Seq<char>,
    pub is_active: bool,
    pub license_count: u64,
}

impl View for CreativeWork {
    type V = CreativeWorkView;

    open spec fn view(&self) -> CreativeWorkView {
        CreativeWorkView {
            work_id: self.work_id,
            creator: self.creator,
            title: self.title@,
            description: self.description@,
            creation_time: self.creation_time,
            content_type: self.content_type@,
            is_active: self.is_active,
            license_count: self.license_count,
        }
    }
}

impl Clone for CreativeWork {
    fn clone(&self) -> (r: Self)
        ensures
            r@ == self@,
    {
        CreativeWork {
            work_id: self.work_id,
            creator: self.creator,
            title: self.title.clone(),
            description: self.description.clone(),
            creation_time: self.creation_time,
            content_type: self.content_type.clone(),
            is_active: self.is_active,
            license_count: self.license_count,
        }
    }
}

/// The royalty terms of a work; exactly one per registered work.
#[derive(Clone, Copy)]
pub struct RoyaltyConfig {
    /// The work these terms belong to.
    pub work_id: u64,
    /// Creator share of a primary sale, in basis points (at most 10000).
    pub primary_sale_percentage: u32,
    /// Creator share of a secondary sale, in basis points (at most 10000).
    pub secondary_sale_percentage: u32,
    /// Payment owed per stream.
    pub streaming_rate: TokenAmount,
    /// Least payment accepted for a license.
    pub minimum_license_fee: TokenAmount,
}

/// The mathematical view of a [`RoyaltyConfig`].
#[verifier::ext_equal]
pub struct RoyaltyConfigView {
    pub work_id: u64,
    pub primary_sale_percentage: u32,
    pub secondary_sale_percentage: u32,
    pub streaming_rate: int,
    pub minimum_license_fee: int,
}

impl View for RoyaltyConfig {
    type V = RoyaltyConfigView;

    open spec fn view(&self) -> RoyaltyConfigView {
        RoyaltyConfigView {
            work_id: self.work_id,
            primary_sale_percentage: self.primary_sale_percentage,
            secondary_sale_percentage: self.secondary_sale_percentage,
            streaming_rate: self.streaming_rate@,
            minimum_license_fee: self.minimum_license_fee@,
        }
    }
}

/// An issued license; immutable once created.
pub struct License {
    /// Unique id, assigned sequentially from 1 across all works.
    pub license_id: u64,
    /// The licensed work.
    pub work_id: u64,
    /// The principal the license was issued to.
    pub licensee: Address,
    /// Free-form kind, such as "commercial" or "personal".
    pub license_type: String,
    /// Timestamp of issuance.
    pub issue_time: u64,
    /// Timestamp after which the license is no longer valid; 0 means the
    /// license is perpetual.
    pub expiration_time: u64,
    /// What was paid for the license.
    pub payment_amount: TokenAmount,
}

/// The mathematical view of a [`License`].
#[verifier::ext_equal]
pub struct LicenseView {
    pub license_id: u64,
    pub work_id: u64,
    pub licensee: Address,
    pub license_type: Seq<char>,
    pub issue_time: u64,
    pub expiration_time: u64,
    pub payment_amount: int,
}

impl View for License {
    type V = LicenseView;

    open spec fn view(&self) -> LicenseView {
        LicenseView {
            license_id: self.license_id,
            work_id: self.work_id,
            licensee: self.licensee,
            license_type: self.license_type@,
            issue_time: self.issue_time,
            expiration_time: self.expiration_time,
            payment_amount: self.payment_amount@,
        }
    }
}

impl Clone for License {
    fn clone(&self) -> (r: Self)
        ensures
            r@ == self@,
    {
        License {
            license_id: self.license_id,
            work_id: self.work_id,
            licensee: self.licensee,
            license_type: self.license_type.clone(),
            issue_time: self.issue_time,
            expiration_time: self.expiration_time,
            payment_amount: self.payment_amount,
        }
    }
}

/// A recorded royalty payment; immutable once created.
pub struct RoyaltyPayment {
    /// Unique id, assigned sequentially from 1 across all works.
    pub payment_id: u64,
    /// The work the payment is for.
    pub work_id: u64,
    /// The principal that paid.
    pub payer: Address,
    /// Timestamp of the payment.
    pub payment_time: u64,
    /// The amount paid.
    pub payment_amount: TokenAmount,
    /// Free-form kind, such as "license", "sale", or "streaming".
    pub payment_type: String,
}

/// The mathematical view of a [`RoyaltyPayment`].
#[verifier::ext_equal]
pub struct RoyaltyPaymentView {
    pub payment_id: u64,
    pub work_id: u64,
    pub payer: Address,
    pub payment_time: u64,
    pub payment_amount: int,
    pub payment_type: Seq<char>,
}

impl View for RoyaltyPayment {
    type V = RoyaltyPaymentView;

    open spec fn view(&self) -> RoyaltyPaymentView {
        RoyaltyPaymentView {
            payment_id: self.payment_id,
            work_id: self.work_id,
            payer: self.payer,
            payment_time: self.payment_time,
            payment_amount: self.payment_amount@,
            payment_type: self.payment_type@,
        }
    }
}

impl Clone for RoyaltyPayment {
    fn clone(&self) -> (r: Self)
        ensures
            r@ == self@,
    {
        RoyaltyPayment {
            payment_id: self.payment_id,
            work_id: self.work_id,
            payer: self.payer,
            payment_time: self.payment_time,
            payment_amount: self.payment_amount,
            payment_type: self.payment_type.clone(),
        }
    }
}

/// Aggregate statistics over the whole registry.
#[derive(Clone, Copy)]
pub struct RoyaltyStats {
    /// Number of works ever registered.
    pub total_works: u64,
    /// Number of licenses ever issued.
    pub total_licenses: u64,
    /// Number of payments ever recorded.
    pub total_payments: u64,
    /// Exact sum of all recorded payment amounts.
    pub total_revenue: TokenAmount,
}

/// The mathematical view of [`RoyaltyStats`].
#[verifier::ext_equal]
pub struct RoyaltyStatsView {
    pub total_works: u64,
    pub total_licenses: u64,
    pub total_payments: u64,
    pub total_revenue: int,
}

impl View for RoyaltyStats {
    type V = RoyaltyStatsView;

    open spec fn view(&self) -> RoyaltyStatsView {
        RoyaltyStatsView {
            total_works: self.total_works,
            total_licenses: self.total_licenses,
            total_payments: self.total_payments,
            total_revenue: self.total_revenue@,
        }
    }
}

/// One entry of the creator index: the works one principal registered,
/// in order of registration.
pub struct CreatorWorks {
    /// The registering principal.
    pub creator: Address,
    /// The ids of the works this principal registered, oldest first.
    pub work_ids: Vec<u64>,
}

/// The mathematical view of a [`CreatorWorks`] entry.
#[verifier::ext_equal]
pub struct CreatorWorksView {
    pub creator: Address,
    pub work_ids: Seq<u64>,
}

impl View for CreatorWorks {
    type V = CreatorWorksView;

    open spec fn view(&self) -> CreatorWorksView {
        CreatorWorksView { creator: self.creator, work_ids: self.work_ids@ }
    }
}

/// Storage key for a [`CreativeWork`], for embeddings that persist each
/// record under a tagged key.
#[derive(Clone, Copy, PartialEq, Eq, Structural, Debug)]
pub enum WorkKey {
    CreativeWork(u64),
}

/// Storage key for a [`RoyaltyConfig`].
#[derive(Clone, Copy, PartialEq, Eq, Structural, Debug)]
pub enum RoyaltyKey {
    Config(u64),
}

/// Storage key for a [`License`].
#[derive(Clone, Copy, PartialEq, Eq, Structural, Debug)]
pub enum LicenseKey {
    License(u64),
}

/// Storage key for a [`RoyaltyPayment`].
#[derive(Clone, Copy, PartialEq, Eq, Structural, Debug)]
pub enum PaymentKey {
    Payment(u64),
}

} // verus!
