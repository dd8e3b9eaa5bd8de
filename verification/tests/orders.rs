use loyalty_dex::orders::{OrderContract, OrderError, OrderItem, OrderStatus};

fn make_item(id: u64, qty: u32, price: i128) -> OrderItem {
    OrderItem {
        menu_item_id: id,
        name: "Jollof Rice".to_string(),
        quantity: qty,
        unit_price: price,
    }
}

fn setup() -> (OrderContract, u64, u64) {
    let contract = OrderContract::new();
    let admin: u64 = 10;
    let customer: u64 = 20;
    (contract, admin, customer)
}

#[test]
fn test_place_and_get_order() {
    let (mut contract, admin, customer) = setup();
    contract.initialize(admin).unwrap();

    let items = vec![make_item(1, 2, 5_000_000)]; // 2 x 0.5 XLM
    let id = contract
        .place_order(customer, 42, items, "No onions please".to_string(), 0)
        .unwrap();

    assert_eq!(id, 1);
    let order = contract.get_order(id).unwrap();
    assert_eq!(order.total_amount, 10_000_000);
    assert!(order.status == OrderStatus::Pending);
}

#[test]
fn test_advance_status() {
    let (mut contract, admin, customer) = setup();
    contract.initialize(admin).unwrap();

    let items = vec![make_item(1, 1, 7_000_000)];
    let id = contract.place_order(customer, 1, items, "".to_string(), 0).unwrap();

    contract.advance_status(admin, id, 1).unwrap();
    assert!(contract.get_order(id).unwrap().status == OrderStatus::Confirmed);

    contract.advance_status(admin, id, 2).unwrap();
    assert!(contract.get_order(id).unwrap().status == OrderStatus::Preparing);

    contract.advance_status(admin, id, 3).unwrap();
    assert!(contract.get_order(id).unwrap().status == OrderStatus::Ready);

    contract.advance_status(admin, id, 4).unwrap();
    assert!(contract.get_order(id).unwrap().status == OrderStatus::Delivered);
}

#[test]
fn test_customer_cancel_pending() {
    let (mut contract, admin, customer) = setup();
    contract.initialize(admin).unwrap();

    let items = vec![make_item(2, 1, 3_000_000)];
    let id = contract.place_order(customer, 1, items, "".to_string(), 0).unwrap();

    contract.cancel_order(customer, id, 1).unwrap();
    assert!(contract.get_order(id).unwrap().status == OrderStatus::Cancelled);
}

#[test]
fn test_customer_cannot_cancel_confirmed() {
    let (mut contract, admin, customer) = setup();
    contract.initialize(admin).unwrap();

    let items = vec![make_item(1, 1, 5_000_000)];
    let id = contract.place_order(customer, 1, items, "".to_string(), 0).unwrap();
    contract.advance_status(admin, id, 1).unwrap();
    // Customers may only cancel pending orders.
    assert_eq!(contract.cancel_order(customer, id, 2), Err(OrderError::CannotCancel));
    assert!(contract.get_order(id).unwrap().status == OrderStatus::Confirmed);
}

#[test]
fn test_get_restaurant_orders() {
    let (mut contract, admin, customer) = setup();
    contract.initialize(admin).unwrap();

    let items1 = vec![make_item(1, 1, 5_000_000)];
    let items2 = vec![make_item(1, 1, 5_000_000)];
    contract.place_order(customer, 7, items1, "".to_string(), 0).unwrap();
    contract.place_order(customer, 7, items2, "".to_string(), 0).unwrap();

    let orders = contract.get_restaurant_orders(7);
    assert_eq!(orders.len(), 2);
}

#[test]
fn order_validation_errors() {
    let (mut contract, admin, customer) = setup();
    contract.initialize(admin).unwrap();
    assert_eq!(
        contract.place_order(customer, 1, vec![], "".to_string(), 0),
        Err(OrderError::EmptyOrder)
    );
    assert_eq!(
        contract.place_order(customer, 1, vec![make_item(1, 0, 5)], "".to_string(), 0),
        Err(OrderError::InvalidQuantity)
    );
    assert_eq!(
        contract.place_order(customer, 1, vec![make_item(1, 2, 0)], "".to_string(), 0),
        Err(OrderError::InvalidPrice)
    );
    // The first offending item decides the error.
    assert_eq!(
        contract.place_order(
            customer,
            1,
            vec![make_item(1, 2, -7), make_item(2, 0, 5)],
            "".to_string(),
            0
        ),
        Err(OrderError::InvalidPrice)
    );
    assert_eq!(contract.get_count(), 0);
}

#[test]
fn order_admin_errors() {
    let (mut contract, admin, customer) = setup();
    let other: u64 = 33;
    // Cancelling and advancing need an installed admin.
    let mut uninit = OrderContract::new();
    let id0 = uninit.place_order(customer, 1, vec![make_item(1, 1, 5)], "".to_string(), 0).unwrap();
    assert_eq!(uninit.cancel_order(customer, id0, 1), Err(OrderError::NotInitialized));
    assert_eq!(uninit.advance_status(customer, id0, 1), Err(OrderError::NotInitialized));

    contract.initialize(admin).unwrap();
    assert_eq!(contract.initialize(admin), Err(OrderError::AlreadyInitialized));
    let id = contract.place_order(customer, 1, vec![make_item(1, 1, 5)], "".to_string(), 0).unwrap();
    assert_eq!(contract.advance_status(other, id, 1), Err(OrderError::Unauthorized));
    assert_eq!(contract.cancel_order(other, id, 1), Err(OrderError::Unauthorized));
    assert_eq!(contract.get_order(9).unwrap_err(), OrderError::OrderNotFound);
    assert_eq!(contract.cancel_order(admin, 9, 1), Err(OrderError::OrderNotFound));
}

#[test]
fn order_lifecycle_edges() {
    let (mut contract, admin, customer) = setup();
    contract.initialize(admin).unwrap();
    let id = contract.place_order(customer, 1, vec![make_item(1, 1, 5)], "".to_string(), 0).unwrap();
    for t in 1..=4u64 {
        contract.advance_status(admin, id, t).unwrap();
    }
    // A delivered order neither advances nor cancels.
    assert_eq!(contract.advance_status(admin, id, 5), Err(OrderError::AlreadyDelivered));
    assert_eq!(contract.cancel_order(admin, id, 5), Err(OrderError::AlreadyDelivered));
    // A cancelled order stays cancelled.
    let id2 = contract.place_order(customer, 1, vec![make_item(1, 1, 5)], "".to_string(), 6).unwrap();
    contract.cancel_order(admin, id2, 7).unwrap();
    assert_eq!(contract.advance_status(admin, id2, 8), Err(OrderError::AlreadyCancelled));
    assert_eq!(contract.cancel_order(admin, id2, 8), Err(OrderError::AlreadyCancelled));
}

#[test]
fn set_status_is_admin_only_and_direct() {
    let (mut contract, admin, customer) = setup();
    contract.initialize(admin).unwrap();
    let id = contract.place_order(customer, 1, vec![make_item(1, 1, 5)], "".to_string(), 0).unwrap();
    assert_eq!(
        contract.set_status(customer, id, OrderStatus::Ready, 1),
        Err(OrderError::Unauthorized)
    );
    contract.set_status(admin, id, OrderStatus::Ready, 2).unwrap();
    let order = contract.get_order(id).unwrap();
    assert!(order.status == OrderStatus::Ready);
    assert_eq!(order.updated_at, 2);
}

#[test]
fn customer_index_tracks_orders() {
    let (mut contract, admin, customer) = setup();
    contract.initialize(admin).unwrap();
    contract.place_order(customer, 5, vec![make_item(1, 1, 5)], "".to_string(), 0).unwrap();
    contract.place_order(customer, 6, vec![make_item(1, 3, 7)], "".to_string(), 0).unwrap();
    contract.place_order(44, 6, vec![make_item(1, 1, 9)], "".to_string(), 0).unwrap();
    assert_eq!(contract.get_customer_orders(customer), vec![1, 2]);
    assert_eq!(contract.get_customer_orders(44), vec![3]);
    assert_eq!(contract.get_restaurant_orders(6), vec![2, 3]);
    assert_eq!(contract.get_count(), 3);
}
