//! In-memory reference implementation of the refund interface.
//!
//! A single ordered list of records; the storage scheme is ignored. Meant
//! for deterministic testing of the interface contract, not as a
//! concurrency model: the surrounding runtime must serialize access.

use vstd::prelude::*;
use vstd::string::*;
use crate::types::{
    DatabaseError, MerchantStorageScheme, Refund, RefundNew, RefundNewV, RefundUpdate, RefundV,
    StorageError, StorageErrorV, spec_apply_changeset,
};
use crate::store::{ref_match, first_ref_idx, RefundInterface, rows_view};
use crate::keys::str_eq;

verus! {

/// The record the reference implementation appends on insert: sequence
/// value from the list length, creation time defaulted from the clock, and
/// the update time always the clock.
pub open spec fn spec_mock_refund(new: RefundNewV, id: int, now: int) -> RefundV {
    RefundV {
        id,
        refund_id: new.refund_id,
        merchant_id: new.merchant_id,
        internal_reference_id: new.internal_reference_id,
        payment_id: new.payment_id,
        transaction_id: new.transaction_id,
        pg_refund_id: new.pg_refund_id,
        total_amount: new.total_amount,
        currency: new.currency,
        refund_amount: new.refund_amount,
        refund_status: new.refund_status,
        sent_to_gateway: new.sent_to_gateway,
        refund_error_message: new.refund_error_message,
        created_at: match new.created_at {
            Option::Some(t) => t,
            Option::None => now,
        },
        updated_at: now,
    }
}

pub open spec fn rid_match(r: RefundV, mid: Seq<char>, rid: Seq<char>) -> bool {
    r.merchant_id == mid && r.refund_id == rid
}

fn txn_matches(r: &Refund, merchant_id: &str, txn_id: &str) -> (b: bool)
    ensures
        b == (r@.merchant_id == merchant_id@ && r@.transaction_id == txn_id@),
{
    str_eq(r.merchant_id.as_str(), merchant_id) && str_eq(r.transaction_id.as_str(), txn_id)
}

/// The in-memory reference store: an ordered list of records and a clock.
pub struct MockDb {
    pub refunds: Vec<Refund>,
    pub clock: i64,
}

impl MockDb {
    /// An empty reference store.
    pub fn new(clock: i64) -> (s: MockDb)
        ensures
            s.refunds@.len() == 0,
            s.clock == clock,
    {
        MockDb { refunds: Vec::new(), clock }
    }
}

impl RefundInterface for MockDb {
    open spec fn inv(&self) -> bool {
        true
    }

    open spec fn insert_ready(&self) -> bool {
        self.refunds@.len() < i64::MAX
    }

    fn find_refund_by_internal_reference_id_merchant_id(
        &self,
        internal_reference_id: &str,
        merchant_id: &str,
        storage_scheme: MerchantStorageScheme,
    ) -> (r: Result<Refund, StorageError>)
        ensures
            match r {
                Result::Ok(x) => exists|i: int|
                    #[trigger] first_ref_idx(
                        rows_view(self.refunds@),
                        internal_reference_id@,
                        merchant_id@,
                        i,
                    ) && rows_view(self.refunds@)[i] == x@,
                Result::Err(e) => e@ == StorageErrorV::DatabaseError(DatabaseError::NotFound)
                    && forall|i: int|
                    0 <= i < self.refunds@.len() ==> !ref_match(
                        #[trigger] rows_view(self.refunds@)[i],
                        internal_reference_id@,
                        merchant_id@,
                    ),
            },
    {
        let mut i: usize = 0;
        while i < self.refunds.len()
            invariant
                0 <= i <= self.refunds.len(),
                forall|j: int|
                    0 <= j < i ==> !ref_match(
                        #[trigger] rows_view(self.refunds@)[j],
                        internal_reference_id@,
                        merchant_id@,
                    ),
            decreases self.refunds.len() - i,
        {
            if str_eq(self.refunds[i].internal_reference_id.as_str(), internal_reference_id)
                && str_eq(self.refunds[i].merchant_id.as_str(), merchant_id) {
                proof {
                    assert(first_ref_idx(
                        rows_view(self.refunds@),
                        internal_reference_id@,
                        merchant_id@,
                        i as int,
                    ));
                }
                return Result::Ok(self.refunds[i].clone());
            }
            i = i + 1;
        }
        Result::Err(StorageError::DatabaseError(DatabaseError::NotFound))
    }

    fn find_refund_by_payment_id_merchant_id(
        &self,
        payment_id: &str,
        merchant_id: &str,
        storage_scheme: MerchantStorageScheme,
    ) -> (r: Result<Vec<Refund>, StorageError>)
        ensures
            match r {
                Result::Ok(xs) => rows_view(xs@) == crate::store::rows_by_payment(
                    rows_view(self.refunds@),
                    payment_id@,
                    merchant_id@,
                ),
                Result::Err(_) => false,
            },
    {
        let mut out: Vec<Refund> = Vec::new();
        proof {
            assert(rows_view(self.refunds@).subrange(0, 0) =~= Seq::<RefundV>::empty());
            assert(rows_view(out@) =~= Seq::<RefundV>::empty());
        }
        let mut i: usize = 0;
        while i < self.refunds.len()
            invariant
                0 <= i <= self.refunds.len(),
                rows_view(out@) == crate::store::rows_by_payment(
                    rows_view(self.refunds@).subrange(0, i as int),
                    payment_id@,
                    merchant_id@,
                ),
            decreases self.refunds.len() - i,
        {
            proof {
                assert(rows_view(self.refunds@).subrange(0, i + 1).drop_last() =~= rows_view(
                    self.refunds@,
                ).subrange(0, i as int));
                assert(rows_view(self.refunds@).subrange(0, i + 1).last() == rows_view(
                    self.refunds@,
                )[i as int]);
            }
            if str_eq(self.refunds[i].payment_id.as_str(), payment_id)
                && str_eq(self.refunds[i].merchant_id.as_str(), merchant_id) {
                out.push(self.refunds[i].clone());
                proof {
                    assert(rows_view(out@) =~= crate::store::rows_by_payment(
                        rows_view(self.refunds@).subrange(0, i + 1),
                        payment_id@,
                        merchant_id@,
                    ));
                }
            }
            i = i + 1;
        }
        proof {
            assert(rows_view(self.refunds@).subrange(0, self.refunds@.len() as int) =~= rows_view(
                self.refunds@,
            ));
        }
        Result::Ok(out)
    }

    fn find_refund_by_merchant_id_refund_id(
        &self,
        merchant_id: &str,
        refund_id: &str,
        storage_scheme: MerchantStorageScheme,
    ) -> (r: Result<Refund, StorageError>)
        ensures
            match r {
                Result::Ok(x) => exists|i: int|
                    {
                        &&& 0 <= i < self.refunds@.len()
                        &&& rid_match(#[trigger] rows_view(self.refunds@)[i], merchant_id@, refund_id@)
                        &&& rows_view(self.refunds@)[i] == x@
                        &&& forall|j: int|
                            0 <= j < i ==> !rid_match(
                                #[trigger] rows_view(self.refunds@)[j],
                                merchant_id@,
                                refund_id@,
                            )
                    },
                Result::Err(e) => e@ == StorageErrorV::DatabaseError(DatabaseError::NotFound)
                    && forall|i: int|
                    0 <= i < self.refunds@.len() ==> !rid_match(
                        #[trigger] rows_view(self.refunds@)[i],
                        merchant_id@,
                        refund_id@,
                    ),
            },
    {
        let mut i: usize = 0;
        while i < self.refunds.len()
            invariant
                0 <= i <= self.refunds.len(),
                forall|j: int|
                    0 <= j < i ==> !rid_match(
                        #[trigger] rows_view(self.refunds@)[j],
                        merchant_id@,
                        refund_id@,
                    ),
            decreases self.refunds.len() - i,
        {
            if str_eq(self.refunds[i].merchant_id.as_str(), merchant_id)
                && str_eq(self.refunds[i].refund_id.as_str(), refund_id) {
                proof {
                    assert(rid_match(rows_view(self.refunds@)[i as int], merchant_id@, refund_id@));
                }
                return Result::Ok(self.refunds[i].clone());
            }
            i = i + 1;
        }
        Result::Err(StorageError::DatabaseError(DatabaseError::NotFound))
    }

    fn update_refund(
        &mut self,
        this: Refund,
        refund: RefundUpdate,
        storage_scheme: MerchantStorageScheme,
    ) -> (r: Result<Refund, StorageError>)
        ensures
            match r {
                Result::Ok(x) => exists|i: int|
                    {
                        &&& 0 <= i < old(self).refunds@.len()
                        &&& rid_match(
                            #[trigger] rows_view(old(self).refunds@)[i],
                            this@.merchant_id,
                            this@.refund_id,
                        )
                        &&& forall|j: int|
                            0 <= j < i ==> !rid_match(
                                #[trigger] rows_view(old(self).refunds@)[j],
                                this@.merchant_id,
                                this@.refund_id,
                            )
                        &&& x@ == spec_apply_changeset(refund@, rows_view(old(self).refunds@)[i])
                        &&& rows_view(final(self).refunds@) == rows_view(old(self).refunds@).update(
                            i,
                            x@,
                        )
                    },
                Result::Err(e) => {
                    &&& e@ == StorageErrorV::DatabaseError(DatabaseError::NotFound)
                    &&& final(self).refunds@ == old(self).refunds@
                    &&& forall|i: int|
                        0 <= i < old(self).refunds@.len() ==> !rid_match(
                            #[trigger] rows_view(old(self).refunds@)[i],
                            this@.merchant_id,
                            this@.refund_id,
                        )
                },
            },
    {
        let mut i: usize = 0;
        while i < self.refunds.len()
            invariant
                0 <= i <= self.refunds.len(),
                *self == *old(self),
                forall|j: int|
                    0 <= j < i ==> !rid_match(
                        #[trigger] rows_view(self.refunds@)[j],
                        this@.merchant_id,
                        this@.refund_id,
                    ),
            decreases self.refunds.len() - i,
        {
            if self.refunds[i].merchant_id.eq(&this.merchant_id)
                && self.refunds[i].refund_id.eq(&this.refund_id) {
                proof {
                    assert(rid_match(
                        rows_view(self.refunds@)[i as int],
                        this@.merchant_id,
                        this@.refund_id,
                    ));
                }
                let updated = refund.apply_changeset(&self.refunds[i]);
                let ret = updated.clone();
                let _ = self.refunds.remove(i);
                self.refunds.insert(i, updated);
                proof {
                    assert(rows_view(self.refunds@) =~= rows_view(old(self).refunds@).update(
                        i as int,
                        ret@,
                    ));
                }
                return Result::Ok(ret);
            }
            i = i + 1;
        }
        Result::Err(StorageError::DatabaseError(DatabaseError::NotFound))
    }

    fn find_refund_by_merchant_id_transaction_id(
        &self,
        merchant_id: &str,
        txn_id: &str,
        storage_scheme: MerchantStorageScheme,
    ) -> (r: Result<Vec<Refund>, StorageError>)
        ensures
            match r {
                // Prefix-stop scan: the reference implementation assumes
                // records of one transaction sit at the head of the list;
                // it collects matching records only up to the first
                // non-matching one (documented limitation).
                Result::Ok(xs) => exists|n: int|
                    {
                        &&& 0 <= n <= self.refunds@.len()
                        &&& rows_view(xs@) =~= rows_view(self.refunds@).subrange(0, n)
                        &&& forall|j: int|
                            0 <= j < n ==> (#[trigger] rows_view(self.refunds@)[j]).merchant_id
                                == merchant_id@ && rows_view(self.refunds@)[j].transaction_id
                                == txn_id@
                        &&& (n == self.refunds@.len() || !(rows_view(self.refunds@)[n].merchant_id
                            == merchant_id@ && rows_view(self.refunds@)[n].transaction_id
                            == txn_id@))
                    },
                Result::Err(_) => false,
            },
    {
        let mut out: Vec<Refund> = Vec::new();
        let mut i: usize = 0;
        proof {
            assert(rows_view(out@) =~= rows_view(self.refunds@).subrange(0, 0));
        }
        while i < self.refunds.len() && txn_matches(&self.refunds[i], merchant_id, txn_id)
            invariant
                0 <= i <= self.refunds.len(),
                rows_view(out@) =~= rows_view(self.refunds@).subrange(0, i as int),
                forall|j: int|
                    0 <= j < i ==> (#[trigger] rows_view(self.refunds@)[j]).merchant_id
                        == merchant_id@ && rows_view(self.refunds@)[j].transaction_id == txn_id@,
            decreases self.refunds.len() - i,
        {
            out.push(self.refunds[i].clone());
            proof {
                let rv = rows_view(self.refunds@);
                assert(rv.subrange(0, i + 1) =~= rv.subrange(0, i as int).push(rv[i as int]));
                assert(rows_view(out@) =~= rv.subrange(0, i as int).push(rv[i as int]));
            }
            i = i + 1;
        }
        Result::Ok(out)
    }

    fn insert_refund(
        &mut self,
        new: RefundNew,
        storage_scheme: MerchantStorageScheme,
    ) -> (r: Result<Refund, StorageError>)
        ensures
            ({
                let fresh = spec_mock_refund(
                    new@,
                    old(self).refunds@.len() as int,
                    old(self).clock as int,
                );
                &&& rows_view(final(self).refunds@) == rows_view(old(self).refunds@).push(fresh)
                &&& r matches Result::Ok(x) && x@ == fresh
            }),
    {
        let at = match new.created_at {
            Option::Some(t) => t,
            Option::None => self.clock,
        };
        let row = Refund {
            id: self.refunds.len() as i64,
            refund_id: new.refund_id,
            merchant_id: new.merchant_id,
            internal_reference_id: new.internal_reference_id,
            payment_id: new.payment_id,
            transaction_id: new.transaction_id,
            pg_refund_id: new.pg_refund_id,
            total_amount: new.total_amount,
            currency: new.currency,
            refund_amount: new.refund_amount,
            refund_status: new.refund_status,
            sent_to_gateway: new.sent_to_gateway,
            refund_error_message: new.refund_error_message,
            created_at: at,
            updated_at: self.clock,
        };
        let ret = row.clone();
        self.refunds.push(row);
        proof {
            assert(rows_view(self.refunds@) =~= rows_view(old(self).refunds@).push(ret@));
        }
        Result::Ok(ret)
    }
}

} // verus!
