//! The refund entity, its changeset, and the error kinds of the store layer.

use vstd::prelude::*;

verus! {

/// Per-merchant routing flag, read at call time: every operation on a
/// merchant's refunds goes either straight to the relational store or through
/// the key-value-first path.
#[derive(Clone, Copy, PartialEq, Eq, Structural, Debug)]
pub enum MerchantStorageScheme {
    PostgresOnly,
    RedisKv,
}

/// Lifecycle state of a refund.
#[derive(Clone, Copy, PartialEq, Eq, Structural, Debug)]
pub enum RefundStatus {
    Failure,
    ManualReview,
    Pending,
    Success,
    TransactionFailure,
}

/// Currency of the monetary fields.
#[derive(Clone, Copy, PartialEq, Eq, Structural, Debug)]
pub enum Currency {
    Eur,
    Gbp,
    Inr,
    Sgd,
    Usd,
}

/// Relational-store failure unrelated to the key-value path.
#[derive(Clone, Copy, PartialEq, Eq, Structural, Debug)]
pub enum DatabaseError {
    NotFound,
    UniqueViolation,
}

/// Error kinds surfaced by every operation of this layer.
#[derive(Debug, PartialEq)]
pub enum StorageError {
    /// A relational-store failure, such as a missing row or a uniqueness
    /// violation.
    DatabaseError(DatabaseError),
    /// A second insert of a refund id that already exists; the message names
    /// the offending refund id.
    DuplicateValue(String),
    /// A key-value store or codec failure, including unexpected protocol
    /// outcomes.
    KVError,
}

/// Ghost image of a [`StorageError`].
#[verifier::ext_equal]
pub ghost enum StorageErrorV {
    DatabaseError(DatabaseError),
    DuplicateValue(Seq<char>),
    KVError,
}

impl View for StorageError {
    type V = StorageErrorV;

    open spec fn view(&self) -> StorageErrorV {
        match self {
            StorageError::DatabaseError(e) => StorageErrorV::DatabaseError(*e),
            StorageError::DuplicateValue(m) => StorageErrorV::DuplicateValue(m@),
            StorageError::KVError => StorageErrorV::KVError,
        }
    }
}

/// The refund record. A refund id is unique within a merchant; many refunds
/// may share a payment id. The `id` field is the relational sequence value;
/// copies written through the key-value path carry `id == 0` until drained.
#[derive(Debug, PartialEq)]
pub struct Refund {
    pub id: i64,
    pub refund_id: String,
    pub merchant_id: String,
    pub internal_reference_id: String,
    pub payment_id: String,
    pub transaction_id: String,
    pub pg_refund_id: Option<String>,
    pub total_amount: i64,
    pub currency: Currency,
    pub refund_amount: i64,
    pub refund_status: RefundStatus,
    pub sent_to_gateway: bool,
    pub refund_error_message: Option<String>,
    pub created_at: i64,
    pub updated_at: i64,
}

/// Ghost image of a [`Refund`].
#[verifier::ext_equal]
pub ghost struct RefundV {
    pub id: int,
    pub refund_id: Seq<char>,
    pub merchant_id: Seq<char>,
    pub internal_reference_id: Seq<char>,
    pub payment_id: Seq<char>,
    pub transaction_id: Seq<char>,
    pub pg_refund_id: Option<Seq<char>>,
    pub total_amount: int,
    pub currency: Currency,
    pub refund_amount: int,
    pub refund_status: RefundStatus,
    pub sent_to_gateway: bool,
    pub refund_error_message: Option<Seq<char>>,
    pub created_at: int,
    pub updated_at: int,
}

pub open spec fn opt_view(o: Option<String>) -> Option<Seq<char>> {
    match o {
        Option::Some(s) => Option::Some(s@),
        Option::None => Option::None,
    }
}

/// Clones an optional string, value for value.
pub fn clone_opt_string(o: &Option<String>) -> (r: Option<String>)
    ensures
        r == *o,
{
    match o {
        Option::Some(s) => Option::Some(s.clone()),
        Option::None => Option::None,
    }
}

impl View for Refund {
    type V = RefundV;

    open spec fn view(&self) -> RefundV {
        RefundV {
            id: self.id as int,
            refund_id: self.refund_id@,
            merchant_id: self.merchant_id@,
            internal_reference_id: self.internal_reference_id@,
            payment_id: self.payment_id@,
            transaction_id: self.transaction_id@,
            pg_refund_id: opt_view(self.pg_refund_id),
            total_amount: self.total_amount as int,
            currency: self.currency,
            refund_amount: self.refund_amount as int,
            refund_status: self.refund_status,
            sent_to_gateway: self.sent_to_gateway,
            refund_error_message: opt_view(self.refund_error_message),
            created_at: self.created_at as int,
            updated_at: self.updated_at as int,
        }
    }
}

impl Clone for Refund {
    fn clone(&self) -> (r: Self)
        ensures
            r == *self,
    {
        Refund {
            id: self.id,
            refund_id: self.refund_id.clone(),
            merchant_id: self.merchant_id.clone(),
            internal_reference_id: self.internal_reference_id.clone(),
            payment_id: self.payment_id.clone(),
            transaction_id: self.transaction_id.clone(),
            pg_refund_id: clone_opt_string(&self.pg_refund_id),
            total_amount: self.total_amount,
            currency: self.currency,
            refund_amount: self.refund_amount,
            refund_status: self.refund_status,
            sent_to_gateway: self.sent_to_gateway,
            refund_error_message: clone_opt_string(&self.refund_error_message),
            created_at: self.created_at,
            updated_at: self.updated_at,
        }
    }
}

/// A refund to be inserted: the record without its sequence value and with
/// the creation time still optional (a missing one is taken from the store's
/// clock).
#[derive(Debug, PartialEq)]
pub struct RefundNew {
    pub refund_id: String,
    pub merchant_id: String,
    pub internal_reference_id: String,
    pub payment_id: String,
    pub transaction_id: String,
    pub pg_refund_id: Option<String>,
    pub total_amount: i64,
    pub currency: Currency,
    pub refund_amount: i64,
    pub refund_status: RefundStatus,
    pub sent_to_gateway: bool,
    pub refund_error_message: Option<String>,
    pub created_at: Option<i64>,
}

/// Ghost image of a [`RefundNew`].
#[verifier::ext_equal]
pub ghost struct RefundNewV {
    pub refund_id: Seq<char>,
    pub merchant_id: Seq<char>,
    pub internal_reference_id: Seq<char>,
    pub payment_id: Seq<char>,
    pub transaction_id: Seq<char>,
    pub pg_refund_id: Option<Seq<char>>,
    pub total_amount: int,
    pub currency: Currency,
    pub refund_amount: int,
    pub refund_status: RefundStatus,
    pub sent_to_gateway: bool,
    pub refund_error_message: Option<Seq<char>>,
    pub created_at: Option<int>,
}

impl View for RefundNew {
    type V = RefundNewV;

    open spec fn view(&self) -> RefundNewV {
        RefundNewV {
            refund_id: self.refund_id@,
            merchant_id: self.merchant_id@,
            internal_reference_id: self.internal_reference_id@,
            payment_id: self.payment_id@,
            transaction_id: self.transaction_id@,
            pg_refund_id: opt_view(self.pg_refund_id),
            total_amount: self.total_amount as int,
            currency: self.currency,
            refund_amount: self.refund_amount as int,
            refund_status: self.refund_status,
            sent_to_gateway: self.sent_to_gateway,
            refund_error_message: opt_view(self.refund_error_message),
            created_at: match self.created_at {
                Option::Some(t) => Option::Some(t as int),
                Option::None => Option::None,
            },
        }
    }
}

impl Clone for RefundNew {
    fn clone(&self) -> (r: Self)
        ensures
            r == *self,
    {
        RefundNew {
            refund_id: self.refund_id.clone(),
            merchant_id: self.merchant_id.clone(),
            internal_reference_id: self.internal_reference_id.clone(),
            payment_id: self.payment_id.clone(),
            transaction_id: self.transaction_id.clone(),
            pg_refund_id: clone_opt_string(&self.pg_refund_id),
            total_amount: self.total_amount,
            currency: self.currency,
            refund_amount: self.refund_amount,
            refund_status: self.refund_status,
            sent_to_gateway: self.sent_to_gateway,
            refund_error_message: clone_opt_string(&self.refund_error_message),
            created_at: self.created_at,
        }
    }
}

/// The changeset applied by an update operation.
#[derive(Debug, PartialEq)]
pub enum RefundUpdate {
    Update {
        pg_refund_id: Option<String>,
        refund_status: RefundStatus,
        sent_to_gateway: bool,
        refund_error_message: Option<String>,
    },
    StatusUpdate { refund_status: RefundStatus, sent_to_gateway: bool },
    ErrorUpdate { refund_error_message: Option<String> },
}

/// Ghost image of a [`RefundUpdate`].
#[verifier::ext_equal]
pub ghost enum RefundUpdateV {
    Update {
        pg_refund_id: Option<Seq<char>>,
        refund_status: RefundStatus,
        sent_to_gateway: bool,
        refund_error_message: Option<Seq<char>>,
    },
    StatusUpdate { refund_status: RefundStatus, sent_to_gateway: bool },
    ErrorUpdate { refund_error_message: Option<Seq<char>> },
}

impl View for RefundUpdate {
    type V = RefundUpdateV;

    open spec fn view(&self) -> RefundUpdateV {
        match self {
            RefundUpdate::Update { pg_refund_id, refund_status, sent_to_gateway, refund_error_message } =>
                RefundUpdateV::Update {
                    pg_refund_id: opt_view(*pg_refund_id),
                    refund_status: *refund_status,
                    sent_to_gateway: *sent_to_gateway,
                    refund_error_message: opt_view(*refund_error_message),
                },
            RefundUpdate::StatusUpdate { refund_status, sent_to_gateway } =>
                RefundUpdateV::StatusUpdate {
                    refund_status: *refund_status,
                    sent_to_gateway: *sent_to_gateway,
                },
            RefundUpdate::ErrorUpdate { refund_error_message } =>
                RefundUpdateV::ErrorUpdate {
                    refund_error_message: opt_view(*refund_error_message),
                },
        }
    }
}

/// What applying a changeset to a record yields: the named fields are
/// replaced, everything else (identifiers, amounts, timestamps, the sequence
/// value) is kept.
pub open spec fn spec_apply_changeset(u: RefundUpdateV, r: RefundV) -> RefundV {
    match u {
        RefundUpdateV::Update { pg_refund_id, refund_status, sent_to_gateway, refund_error_message } =>
            RefundV {
                pg_refund_id,
                refund_status,
                sent_to_gateway,
                refund_error_message,
                ..r
            },
        RefundUpdateV::StatusUpdate { refund_status, sent_to_gateway } =>
            RefundV { refund_status, sent_to_gateway, ..r },
        RefundUpdateV::ErrorUpdate { refund_error_message } =>
            RefundV { refund_error_message, ..r },
    }
}

impl RefundUpdate {
    /// Applies the changeset to `source` and returns the updated record.
    pub fn apply_changeset(&self, source: &Refund) -> (r: Refund)
        ensures
            r@ == spec_apply_changeset(self@, source@),
    {
        let mut out = source.clone();
        match self {
            RefundUpdate::Update { pg_refund_id, refund_status, sent_to_gateway, refund_error_message } => {
                out.pg_refund_id = pg_refund_id.clone();
                out.refund_status = *refund_status;
                out.sent_to_gateway = *sent_to_gateway;
                out.refund_error_message = refund_error_message.clone();
            }
            RefundUpdate::StatusUpdate { refund_status, sent_to_gateway } => {
                out.refund_status = *refund_status;
                out.sent_to_gateway = *sent_to_gateway;
            }
            RefundUpdate::ErrorUpdate { refund_error_message } => {
                out.refund_error_message = refund_error_message.clone();
            }
        }
        out
    }
}

/// The record a key-value-first insert constructs and returns: the new
/// refund's fields, sequence value `0`, and both timestamps taken from the
/// requested creation time, or from `now` when none was given.
pub open spec fn spec_fresh_refund(new: RefundNewV, now: int) -> RefundV {
    let at = match new.created_at {
        Option::Some(t) => t,
        Option::None => now,
    };
    RefundV {
        id: 0,
        refund_id: new.refund_id,
        merchant_id: new.merchant_id,
        internal_reference_id: new.internal_reference_id,
        payment_id: new.payment_id,
        transaction_id: new.transaction_id,
        pg_refund_id: new.pg_refund_id,
        total_amount: new.total_amount,
        currency: new.currency,
        refund_amount: new.refund_amount,
        refund_status: new.refund_status,
        sent_to_gateway: new.sent_to_gateway,
        refund_error_message: new.refund_error_message,
        created_at: at,
        updated_at: at,
    }
}

impl RefundNew {
    /// Builds the in-memory record a key-value-first insert stores and
    /// returns.
    pub fn fresh_refund(&self, now: i64) -> (r: Refund)
        ensures
            r@ == spec_fresh_refund(self@, now as int),
    {
        let at = match self.created_at {
            Option::Some(t) => t,
            Option::None => now,
        };
        Refund {
            id: 0,
            refund_id: self.refund_id.clone(),
            merchant_id: self.merchant_id.clone(),
            internal_reference_id: self.internal_reference_id.clone(),
            payment_id: self.payment_id.clone(),
            transaction_id: self.transaction_id.clone(),
            pg_refund_id: self.pg_refund_id.clone(),
            total_amount: self.total_amount,
            currency: self.currency,
            refund_amount: self.refund_amount,
            refund_status: self.refund_status,
            sent_to_gateway: self.sent_to_gateway,
            refund_error_message: self.refund_error_message.clone(),
            created_at: at,
            updated_at: at,
        }
    }
}

} // verus!
