use loyalty_dex::escrow::{
    EscrowError, EscrowStatus, OrderEscrowContract, ESCROW_TIMEOUT_SECS,
};

#[test]
fn escrow_create_and_details() {
    let mut contract = OrderEscrowContract::new();
    let customer: u64 = 20;
    let restaurant: u64 = 40;
    let asset: u64 = 30;
    let now: u64 = 1000;

    contract.create_escrow(1, customer, restaurant, 5_000_000, asset, now).unwrap();
    let escrow = contract.get_escrow_details(1).unwrap();
    assert_eq!(escrow.customer, customer);
    assert_eq!(escrow.restaurant, restaurant);
    assert_eq!(escrow.amount, 5_000_000);
    assert_eq!(escrow.asset, asset);
    assert!(escrow.status == EscrowStatus::Locked);
    assert_eq!(escrow.created_at, now);
    assert_eq!(escrow.expiry, now + ESCROW_TIMEOUT_SECS);

    assert_eq!(
        contract.create_escrow(1, customer, restaurant, 1, asset, now),
        Err(EscrowError::OrderAlreadyExists)
    );
    assert_eq!(contract.get_escrow_details(2), Err(EscrowError::OrderNotFound));
}

#[test]
fn escrow_complete_pays_restaurant() {
    let mut contract = OrderEscrowContract::new();
    contract.create_escrow(1, 20, 40, 5_000_000, 30, 0).unwrap();

    // Only the customer releases the funds.
    assert_eq!(contract.complete_order(40, 1), Err(EscrowError::Unauthorized));
    let (to, amount) = contract.complete_order(20, 1).unwrap();
    assert_eq!(to, 40);
    assert_eq!(amount, 5_000_000);
    assert!(contract.get_escrow_details(1).unwrap().status == EscrowStatus::Completed);

    // The escrow left its locked state for good.
    assert_eq!(contract.complete_order(20, 1), Err(EscrowError::NotLocked));
    assert_eq!(contract.complete_order(20, 9), Err(EscrowError::OrderNotFound));
}

#[test]
fn escrow_cancel_refunds_customer() {
    let mut contract = OrderEscrowContract::new();
    contract.create_escrow(1, 20, 40, 7_000, 30, 0).unwrap();

    // Before the expiry only the restaurant may cancel.
    assert_eq!(contract.cancel_order(20, 1, 10), Err(EscrowError::Unauthorized));
    let (to, amount) = contract.cancel_order(40, 1, 10).unwrap();
    assert_eq!((to, amount), (20, 7_000));
    assert!(contract.get_escrow_details(1).unwrap().status == EscrowStatus::Refunded);
    assert_eq!(contract.cancel_order(40, 1, 11), Err(EscrowError::NotLocked));

    // After the expiry anyone may trigger the refund.
    contract.create_escrow(2, 20, 40, 900, 30, 0).unwrap();
    let (to, amount) = contract.cancel_order(77, 2, ESCROW_TIMEOUT_SECS).unwrap();
    assert_eq!((to, amount), (20, 900));
}

#[test]
fn escrow_partial_refund_splits_funds() {
    let mut contract = OrderEscrowContract::new();
    contract.create_escrow(1, 20, 40, 10_000, 30, 0).unwrap();

    // Only the restaurant admits a partial refund.
    assert_eq!(contract.partial_refund(20, 1, 100), Err(EscrowError::Unauthorized));
    // The refund must stay below the locked amount.
    assert_eq!(contract.partial_refund(40, 1, 10_000), Err(EscrowError::RefundTooLarge));

    let ((c, refund), (r, rest)) = contract.partial_refund(40, 1, 3_500).unwrap();
    assert_eq!((c, refund), (20, 3_500));
    assert_eq!((r, rest), (40, 6_500));
    assert!(contract.get_escrow_details(1).unwrap().status == EscrowStatus::PartialRefunded);
    assert_eq!(contract.partial_refund(40, 1, 1), Err(EscrowError::NotLocked));
    assert_eq!(contract.partial_refund(40, 9, 1), Err(EscrowError::OrderNotFound));
}
