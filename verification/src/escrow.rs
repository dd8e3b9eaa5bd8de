//! Payment escrow for orders: a customer's funds are locked per order and
//! later released to the restaurant, refunded to the customer, or split
//! between the two. Each escrow moves exactly once out of its locked state.
//!
//! The accounting lives here; the host adapter authenticates callers, reads
//! the clock, and performs the token transfers this module's results call
//! for.

use vstd::prelude::*;

use crate::store::IdValueStore;

verus! {

/// The failure kinds of the escrow contract.
#[derive(Copy, Clone, Debug, Eq, PartialEq, Structural)]
pub enum EscrowError {
    OrderAlreadyExists,
    OrderNotFound,
    NotLocked,
    RefundTooLarge,
    Unauthorized,
}

/// The lifecycle state of an escrow.
#[derive(Copy, Clone, Debug, Eq, PartialEq, Structural)]
pub enum EscrowStatus {
    Locked,
    Completed,
    Refunded,
    PartialRefunded,
}

/// One escrow: the two parties, the locked amount and its asset, the state,
/// and the window in which only the restaurant may cancel.
#[derive(Copy, Clone, Debug, Eq, PartialEq, Structural)]
pub struct Escrow {
    pub customer: u64,
    pub restaurant: u64,
    pub amount: i128,
    pub asset: u64,
    pub status: EscrowStatus,
    pub created_at: u64,
    pub expiry: u64,
}

/// How long after creation an escrow may be cancelled by anyone, in seconds.
pub const ESCROW_TIMEOUT_SECS: u64 = 86400;

/// The escrow contract: one escrow per order identifier.
pub struct OrderEscrowContract {
    escrows: IdValueStore<Escrow>,
}

impl OrderEscrowContract {
    /// The store is well formed and every locked amount is non-negative.
    pub closed spec fn wf(&self) -> bool {
        &&& self.escrows.wf()
        &&& forall|id: u64|
            #[trigger] self.escrows.spec_get(id) matches Some(e) ==> e.amount >= 0
    }

    /// The escrow of an order, if any.
    pub closed spec fn spec_escrow(&self, order_id: u64) -> Option<Escrow> {
        self.escrows.spec_get(order_id)
    }

    /// A fresh contract with no escrows.
    pub fn new() -> (r: Self)
        ensures
            r.wf(),
            forall|id: u64| #[trigger] r.spec_escrow(id) is None,
    {
        OrderEscrowContract { escrows: IdValueStore::new() }
    }

    /// Locks `amount` of `asset` for an order: records the escrow as locked
    /// from `now` until `now` plus the timeout. Fails when the order already
    /// has an escrow; an error changes nothing. The customer's funds must be
    /// moved into custody by the external transfer collaborator before this
    /// call.
    pub fn create_escrow(
        &mut self,
        order_id: u64,
        customer: u64,
        restaurant: u64,
        amount: i128,
        asset: u64,
        now: u64,
    ) -> (r: Result<(), EscrowError>)
        requires
            old(self).wf(),
            amount >= 0,
            now + ESCROW_TIMEOUT_SECS <= u64::MAX,
        ensures
            final(self).wf(),
            old(self).spec_escrow(order_id) is Some ==> r == Err::<(), EscrowError>(
                EscrowError::OrderAlreadyExists,
            ) && *final(self) == *old(self),
            old(self).spec_escrow(order_id) is None ==> {
                &&& r == Ok::<(), EscrowError>(())
                &&& final(self).spec_escrow(order_id) == Some(
                    (Escrow {
                        customer,
                        restaurant,
                        amount,
                        asset,
                        status: EscrowStatus::Locked,
                        created_at: now,
                        expiry: (now + ESCROW_TIMEOUT_SECS) as u64,
                    }),
                )
                &&& forall|id: u64|
                    id != order_id ==> #[trigger] final(self).spec_escrow(id) == old(
                        self,
                    ).spec_escrow(id)
            },
    {
        if self.escrows.contains(order_id) {
            return Err(EscrowError::OrderAlreadyExists);
        }
        let escrow = Escrow {
            customer,
            restaurant,
            amount,
            asset,
            status: EscrowStatus::Locked,
            created_at: now,
            expiry: now + ESCROW_TIMEOUT_SECS,
        };
        self.escrows.set(order_id, escrow);
        Ok(())
    }

    /// Releases a locked escrow to the restaurant, on the customer's
    /// say-so: marks it completed and returns the payout the external
    /// transfer collaborator must make to the restaurant. An error changes
    /// nothing.
    pub fn complete_order(&mut self, caller: u64, order_id: u64) -> (r: Result<
        (u64, i128),
        EscrowError,
    >)
        requires
            old(self).wf(),
        ensures
            final(self).wf(),
            match old(self).spec_escrow(order_id) {
                None => r == Err::<(u64, i128), EscrowError>(EscrowError::OrderNotFound) && *final(self) == *old(self),
                Some(e) => {
                    if e.status != EscrowStatus::Locked {
                        r == Err::<(u64, i128), EscrowError>(EscrowError::NotLocked) && *final(self) == *old(self)
                    } else if caller != e.customer {
                        r == Err::<(u64, i128), EscrowError>(EscrowError::Unauthorized) && *final(self) == *old(self)
                    } else {
                        &&& r == Ok::<(u64, i128), EscrowError>((e.restaurant, e.amount))
                        &&& final(self).spec_escrow(order_id) == Some(
                            (Escrow { status: EscrowStatus::Completed, ..e }),
                        )
                        &&& forall|id: u64|
                            id != order_id ==> #[trigger] final(self).spec_escrow(id) == old(
                                self,
                            ).spec_escrow(id)
                    }
                },
            },
    {
        let mut escrow = match self.escrows.get(order_id) {
            None => {
                return Err(EscrowError::OrderNotFound);
            },
            Some(e) => e,
        };
        if escrow.status != EscrowStatus::Locked {
            return Err(EscrowError::NotLocked);
        }
        if caller != escrow.customer {
            return Err(EscrowError::Unauthorized);
        }
        let payout = (escrow.restaurant, escrow.amount);
        escrow.status = EscrowStatus::Completed;
        self.escrows.set(order_id, escrow);
        Ok(payout)
    }

    /// Refunds a locked escrow to the customer in full: before the expiry
    /// only the restaurant may cancel; after it, anyone may. Marks the escrow
    /// refunded and returns the payout the external transfer collaborator
    /// must make to the customer. An error changes nothing.
    pub fn cancel_order(&mut self, caller: u64, order_id: u64, now: u64) -> (r: Result<
        (u64, i128),
        EscrowError,
    >)
        requires
            old(self).wf(),
        ensures
            final(self).wf(),
            match old(self).spec_escrow(order_id) {
                None => r == Err::<(u64, i128), EscrowError>(EscrowError::OrderNotFound) && *final(self) == *old(self),
                Some(e) => {
                    if e.status != EscrowStatus::Locked {
                        r == Err::<(u64, i128), EscrowError>(EscrowError::NotLocked) && *final(self) == *old(self)
                    } else if now < e.expiry && caller != e.restaurant {
                        r == Err::<(u64, i128), EscrowError>(EscrowError::Unauthorized) && *final(self) == *old(self)
                    } else {
                        &&& r == Ok::<(u64, i128), EscrowError>((e.customer, e.amount))
                        &&& final(self).spec_escrow(order_id) == Some(
                            (Escrow { status: EscrowStatus::Refunded, ..e }),
                        )
                        &&& forall|id: u64|
                            id != order_id ==> #[trigger] final(self).spec_escrow(id) == old(
                                self,
                            ).spec_escrow(id)
                    }
                },
            },
    {
        let mut escrow = match self.escrows.get(order_id) {
            None => {
                return Err(EscrowError::OrderNotFound);
            },
            Some(e) => e,
        };
        if escrow.status != EscrowStatus::Locked {
            return Err(EscrowError::NotLocked);
        }
        if now < escrow.expiry && caller != escrow.restaurant {
            return Err(EscrowError::Unauthorized);
        }
        let payout = (escrow.customer, escrow.amount);
        escrow.status = EscrowStatus::Refunded;
        self.escrows.set(order_id, escrow);
        Ok(payout)
    }

    /// Splits a locked escrow on the restaurant's say-so: `refund_amount`
    /// goes back to the customer and the remainder to the restaurant. The
    /// refund must be non-negative and strictly below the locked amount.
    /// Marks the escrow partially refunded and returns the two payouts the
    /// external transfer collaborator must make. An error changes nothing.
    pub fn partial_refund(&mut self, caller: u64, order_id: u64, refund_amount: i128) -> (r:
        Result<((u64, i128), (u64, i128)), EscrowError>)
        requires
            old(self).wf(),
            refund_amount >= 0,
        ensures
            final(self).wf(),
            match old(self).spec_escrow(order_id) {
                None => r == Err::<((u64, i128), (u64, i128)), EscrowError>(
                    EscrowError::OrderNotFound,
                ) && *final(self) == *old(self),
                Some(e) => {
                    if caller != e.restaurant {
                        r == Err::<((u64, i128), (u64, i128)), EscrowError>(
                            EscrowError::Unauthorized,
                        ) && *final(self) == *old(self)
                    } else if e.status != EscrowStatus::Locked {
                        r == Err::<((u64, i128), (u64, i128)), EscrowError>(EscrowError::NotLocked)
                            && *final(self) == *old(self)
                    } else if refund_amount >= e.amount {
                        r == Err::<((u64, i128), (u64, i128)), EscrowError>(
                            EscrowError::RefundTooLarge,
                        ) && *final(self) == *old(self)
                    } else {
                        &&& r == Ok::<((u64, i128), (u64, i128)), EscrowError>(
                            ((e.customer, refund_amount), (e.restaurant, (e.amount - refund_amount) as i128)),
                        )
                        &&& final(self).spec_escrow(order_id) == Some(
                            (Escrow { status: EscrowStatus::PartialRefunded, ..e }),
                        )
                        &&& forall|id: u64|
                            id != order_id ==> #[trigger] final(self).spec_escrow(id) == old(
                                self,
                            ).spec_escrow(id)
                    }
                },
            },
    {
        let mut escrow = match self.escrows.get(order_id) {
            None => {
                return Err(EscrowError::OrderNotFound);
            },
            Some(e) => e,
        };
        if caller != escrow.restaurant {
            return Err(EscrowError::Unauthorized);
        }
        if escrow.status != EscrowStatus::Locked {
            return Err(EscrowError::NotLocked);
        }
        if refund_amount >= escrow.amount {
            return Err(EscrowError::RefundTooLarge);
        }
        let restaurant_amount = escrow.amount - refund_amount;
        let payouts = ((escrow.customer, refund_amount), (escrow.restaurant, restaurant_amount));
        escrow.status = EscrowStatus::PartialRefunded;
        self.escrows.set(order_id, escrow);
        Ok(payouts)
    }

    /// The escrow of an order. A pure read.
    pub fn get_escrow_details(&self, order_id: u64) -> (r: Result<Escrow, EscrowError>)
        requires
            self.wf(),
        ensures
            self.spec_escrow(order_id) is Some ==> r == Ok::<Escrow, EscrowError>(
                self.spec_escrow(order_id)->Some_0,
            ),
            self.spec_escrow(order_id) is None ==> r == Err::<Escrow, EscrowError>(
                EscrowError::OrderNotFound,
            ),
    {
        match self.escrows.get(order_id) {
            None => Err(EscrowError::OrderNotFound),
            Some(e) => Ok(e),
        }
    }
}

} // verus!
