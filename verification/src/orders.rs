//! Order lifecycle tracking: customers place orders of priced line items,
//! the admin advances each order through confirmation, preparation,
//! readiness and delivery, and pending orders can be cancelled by their
//! customer (the admin can cancel any undelivered order).
//!
//! Caller identities and the clock are plain values; authenticating callers
//! and reading the ledger time are the host adapter's work.

use vstd::prelude::*;

use crate::store::IdListStore;

verus! {

/// The failure kinds of the order contract.
#[derive(Copy, Clone, Debug, Eq, PartialEq, Structural)]
pub enum OrderError {
    AlreadyInitialized,
    NotInitialized,
    EmptyOrder,
    InvalidQuantity,
    InvalidPrice,
    OrderNotFound,
    Unauthorized,
    AlreadyDelivered,
    AlreadyCancelled,
    CannotCancel,
}

/// The lifecycle state of an order.
#[derive(Copy, Clone, Debug, Eq, PartialEq, Structural)]
pub enum OrderStatus {
    Pending,
    Confirmed,
    Preparing,
    Ready,
    Delivered,
    Cancelled,
}

/// A single line item of an order.
#[derive(Clone, Debug)]
pub struct OrderItem {
    pub menu_item_id: u64,
    pub name: String,
    pub quantity: u32,
    pub unit_price: i128,
}

/// The mathematical value of a line item.
pub struct OrderItemView {
    pub menu_item_id: u64,
    pub name: Seq<char>,
    pub quantity: u32,
    pub unit_price: i128,
}

impl View for OrderItem {
    type V = OrderItemView;

    open spec fn view(&self) -> OrderItemView {
        OrderItemView {
            menu_item_id: self.menu_item_id,
            name: self.name@,
            quantity: self.quantity,
            unit_price: self.unit_price,
        }
    }
}

/// A complete order.
#[derive(Clone, Debug)]
pub struct Order {
    pub id: u64,
    pub restaurant_id: u64,
    pub customer: u64,
    pub items: Vec<OrderItem>,
    pub total_amount: i128,
    pub status: OrderStatus,
    pub created_at: u64,
    pub updated_at: u64,
    pub notes: String,
}

/// The mathematical value of an order.
pub struct OrderView {
    pub id: u64,
    pub restaurant_id: u64,
    pub customer: u64,
    pub items: Seq<OrderItemView>,
    pub total_amount: i128,
    pub status: OrderStatus,
    pub created_at: u64,
    pub updated_at: u64,
    pub notes: Seq<char>,
}

impl View for Order {
    type V = OrderView;

    open spec fn view(&self) -> OrderView {
        OrderView {
            id: self.id,
            restaurant_id: self.restaurant_id,
            customer: self.customer,
            items: self.items@.map_values(|it: OrderItem| it@),
            total_amount: self.total_amount,
            status: self.status,
            created_at: self.created_at,
            updated_at: self.updated_at,
            notes: self.notes@,
        }
    }
}

/// Every line item orders at least one unit at a positive price.
pub open spec fn items_valid(items: Seq<OrderItemView>) -> bool {
    forall|i: int|
        0 <= i < items.len() ==> (#[trigger] items[i]).quantity >= 1 && items[i].unit_price >= 1
}

/// The sum of quantity times unit price over the line items.
pub open spec fn order_total(items: Seq<OrderItemView>) -> int
    decreases items.len(),
{
    if items.len() == 0 {
        0
    } else {
        order_total(items.drop_last()) + items.last().unit_price * items.last().quantity
    }
}

/// With valid items, every prefix total lies between zero and the whole
/// total.
pub proof fn lemma_order_total_prefix(items: Seq<OrderItemView>, i: int)
    requires
        items_valid(items),
        0 <= i <= items.len(),
    ensures
        0 <= order_total(items.subrange(0, i)) <= order_total(items),
    decreases items.len() - i,
{
    if i == items.len() {
        assert(items.subrange(0, i) =~= items);
        lemma_order_total_nonneg(items);
    } else {
        let p1 = items.subrange(0, i + 1);
        assert(p1.drop_last() =~= items.subrange(0, i));
        assert(p1.last() == items[i]);
        assert(items[i].unit_price * items[i].quantity >= 1) by (nonlinear_arith)
            requires
                items[i].unit_price >= 1,
                items[i].quantity >= 1,
        ;
        assert(order_total(p1) == order_total(items.subrange(0, i)) + items[i].unit_price
            * items[i].quantity);
        lemma_order_total_nonneg(items.subrange(0, i));
        lemma_order_total_prefix(items, i + 1);
    }
}

/// With valid items, the total is non-negative.
proof fn lemma_order_total_nonneg(items: Seq<OrderItemView>)
    requires
        items_valid(items),
    ensures
        order_total(items) >= 0,
    decreases items.len(),
{
    if items.len() > 0 {
        assert(items.drop_last() =~= items.subrange(0, items.len() - 1));
        assert(items_valid(items.drop_last()));
        lemma_order_total_nonneg(items.drop_last());
        let l = items.last();
        assert(l == items[items.len() - 1]);
        assert(l.unit_price * l.quantity >= 1) by (nonlinear_arith)
            requires
                l.unit_price >= 1,
                l.quantity >= 1,
        ;
    }
}

/// The status an order advances to; `Delivered` and `Cancelled` do not
/// advance.
pub open spec fn next_status(s: OrderStatus) -> OrderStatus {
    match s {
        OrderStatus::Pending => OrderStatus::Confirmed,
        OrderStatus::Confirmed => OrderStatus::Preparing,
        OrderStatus::Preparing => OrderStatus::Ready,
        OrderStatus::Ready => OrderStatus::Delivered,
        OrderStatus::Delivered => OrderStatus::Delivered,
        OrderStatus::Cancelled => OrderStatus::Cancelled,
    }
}

/// A copy of a line item.
fn clone_order_item(item: &OrderItem) -> (r: OrderItem)
    ensures
        r@ == item@,
{
    OrderItem {
        menu_item_id: item.menu_item_id,
        name: item.name.clone(),
        quantity: item.quantity,
        unit_price: item.unit_price,
    }
}

/// A copy of a vector of line items.
fn clone_order_items(items: &Vec<OrderItem>) -> (r: Vec<OrderItem>)
    ensures
        r@.map_values(|it: OrderItem| it@) == items@.map_values(|it: OrderItem| it@),
{
    let n = items.len();
    let mut r: Vec<OrderItem> = Vec::new();
    let mut i: usize = 0;
    while i < n
        invariant
            n == items@.len(),
            0 <= i <= n,
            r@.len() == i,
            forall|j: int| 0 <= j < i ==> (#[trigger] r@[j])@ == items@[j]@,
        decreases n - i,
    {
        r.push(clone_order_item(&items[i]));
        i += 1;
    }
    proof {
        assert(r@.map_values(|it: OrderItem| it@) =~= items@.map_values(|it: OrderItem| it@));
    }
    r
}

/// A copy of an order.
fn clone_order(order: &Order) -> (r: Order)
    ensures
        r@ == order@,
{
    Order {
        id: order.id,
        restaurant_id: order.restaurant_id,
        customer: order.customer,
        items: clone_order_items(&order.items),
        total_amount: order.total_amount,
        status: order.status,
        created_at: order.created_at,
        updated_at: order.updated_at,
        notes: order.notes.clone(),
    }
}

/// The order contract: the admin, the orders placed so far (order `i + 1`
/// lives at index `i`), and the per-restaurant and per-customer identifier
/// indexes.
pub struct OrderContract {
    admin: Option<u64>,
    count: u64,
    orders: Vec<Order>,
    restaurant_orders: IdListStore<u64>,
    customer_orders: IdListStore<u64>,
}

impl OrderContract {
    /// The count matches the stored orders, every order carries its own
    /// identifier, and the two indexes are well formed.
    pub closed spec fn wf(&self) -> bool {
        &&& self.count == self.orders@.len()
        &&& forall|i: int| 0 <= i < self.orders@.len() ==> (#[trigger] self.orders@[i]).id == i + 1
        &&& self.restaurant_orders.wf()
        &&& self.customer_orders.wf()
    }

    /// The admin, once initialized.
    pub closed spec fn spec_admin(&self) -> Option<u64> {
        self.admin
    }

    /// How many orders were ever placed.
    pub closed spec fn spec_count(&self) -> u64 {
        self.count
    }

    /// The order with the given identifier, if any.
    pub closed spec fn spec_order(&self, order_id: u64) -> Option<OrderView> {
        if 1 <= order_id <= self.orders@.len() {
            Some(self.orders@[order_id - 1]@)
        } else {
            None
        }
    }

    /// A restaurant's order identifiers, oldest first.
    pub closed spec fn spec_restaurant_orders(&self, restaurant_id: u64) -> Seq<u64> {
        self.restaurant_orders.spec_get(restaurant_id)
    }

    /// A customer's order identifiers, oldest first.
    pub closed spec fn spec_customer_orders(&self, customer: u64) -> Seq<u64> {
        self.customer_orders.spec_get(customer)
    }

    /// A fresh contract: no admin and no orders.
    pub fn new() -> (r: Self)
        ensures
            r.wf(),
            r.spec_admin() is None,
            r.spec_count() == 0,
            forall|id: u64| #[trigger] r.spec_order(id) is None,
            forall|id: u64| #[trigger] r.spec_restaurant_orders(id) == Seq::<u64>::empty(),
            forall|id: u64| #[trigger] r.spec_customer_orders(id) == Seq::<u64>::empty(),
    {
        OrderContract {
            admin: None,
            count: 0,
            orders: Vec::new(),
            restaurant_orders: IdListStore::new(),
            customer_orders: IdListStore::new(),
        }
    }

    /// Installs the admin. Fails when an admin is already installed; an
    /// error changes nothing.
    pub fn initialize(&mut self, admin: u64) -> (r: Result<(), OrderError>)
        requires
            old(self).wf(),
        ensures
            final(self).wf(),
            old(self).spec_admin() is Some ==> r == Err::<(), OrderError>(
                OrderError::AlreadyInitialized,
            ) && *final(self) == *old(self),
            old(self).spec_admin() is None ==> {
                &&& r == Ok::<(), OrderError>(())
                &&& final(self).spec_admin() == Some(admin)
                &&& final(self).spec_count() == old(self).spec_count()
                &&& forall|id: u64| #[trigger] final(self).spec_order(id) == old(self).spec_order(
                    id,
                )
                &&& forall|id: u64| #[trigger] final(self).spec_restaurant_orders(id) == old(
                    self,
                ).spec_restaurant_orders(id)
                &&& forall|id: u64| #[trigger] final(self).spec_customer_orders(id) == old(
                    self,
                ).spec_customer_orders(id)
            },
    {
        if self.admin.is_some() {
            return Err(OrderError::AlreadyInitialized);
        }
        self.admin = Some(admin);
        Ok(())
    }

    /// Places an order: validates the line items, sums their total, assigns
    /// the next identifier, records the order as pending (stamped `now`) and
    /// appends its identifier to the restaurant's and the customer's
    /// indexes. Fails on an empty item list, a zero quantity, or a
    /// non-positive price; an error changes nothing.
    #[verifier::loop_isolation(false)]
    pub fn place_order(
        &mut self,
        customer: u64,
        restaurant_id: u64,
        items: Vec<OrderItem>,
        notes: String,
        now: u64,
    ) -> (r: Result<u64, OrderError>)
        requires
            old(self).wf(),
            old(self).spec_count() < u64::MAX,
            items_valid(items@.map_values(|it: OrderItem| it@)) ==> order_total(
                items@.map_values(|it: OrderItem| it@),
            ) <= i128::MAX,
        ensures
            final(self).wf(),
            items@.len() == 0 ==> r == Err::<u64, OrderError>(OrderError::EmptyOrder) && *final(self) == *old(self),
            items@.len() >= 1 && !items_valid(items@.map_values(|it: OrderItem| it@)) ==> *final(self) == *old(self) && exists|k: int|
                {
                    &&& 0 <= k < items@.len()
                    &&& items_valid(items@.map_values(|it: OrderItem| it@).subrange(0, k))
                    &&& !((#[trigger] items@[k])@.quantity >= 1 && items@[k]@.unit_price >= 1)
                    &&& r == Err::<u64, OrderError>(
                        if items@[k]@.quantity == 0 {
                            OrderError::InvalidQuantity
                        } else {
                            OrderError::InvalidPrice
                        },
                    )
                },
            items@.len() >= 1 && items_valid(items@.map_values(|it: OrderItem| it@)) ==> {
                let vs = items@.map_values(|it: OrderItem| it@);
                let id = (old(self).spec_count() + 1) as u64;
                &&& r == Ok::<u64, OrderError>(id)
                &&& final(self).spec_count() == id
                &&& final(self).spec_order(id) == Some(
                    (OrderView {
                        id,
                        restaurant_id,
                        customer,
                        items: vs,
                        total_amount: order_total(vs) as i128,
                        status: OrderStatus::Pending,
                        created_at: now,
                        updated_at: now,
                        notes: notes@,
                    }),
                )
                &&& forall|oid: u64|
                    oid != id ==> #[trigger] final(self).spec_order(oid) == old(self).spec_order(
                        oid,
                    )
                &&& final(self).spec_restaurant_orders(restaurant_id) == old(
                    self,
                ).spec_restaurant_orders(restaurant_id).push(id)
                &&& final(self).spec_customer_orders(customer) == old(self).spec_customer_orders(
                    customer,
                ).push(id)
                &&& forall|x: u64|
                    x != restaurant_id ==> #[trigger] final(self).spec_restaurant_orders(x) == old(
                        self,
                    ).spec_restaurant_orders(x)
                &&& forall|x: u64|
                    x != customer ==> #[trigger] final(self).spec_customer_orders(x) == old(
                        self,
                    ).spec_customer_orders(x)
                &&& final(self).spec_admin() == old(self).spec_admin()
            },
    {
        let ghost vs = items@.map_values(|it: OrderItem| it@);
        if items.len() == 0 {
            return Err(OrderError::EmptyOrder);
        }
        let n = items.len();
        let mut i: usize = 0;
        while i < n
            invariant
                0 <= i <= n,
                forall|j: int|
                    0 <= j < i ==> (#[trigger] vs[j]).quantity >= 1 && vs[j].unit_price >= 1,
            decreases n - i,
        {
            proof {
                assert(vs[i as int] == items@[i as int]@);
            }
            if items[i].quantity == 0 {
                proof {
                    assert(vs.subrange(0, i as int) =~= vs.subrange(0, i as int));
                    assert(items_valid(vs.subrange(0, i as int)));
                }
                return Err(OrderError::InvalidQuantity);
            }
            if items[i].unit_price <= 0 {
                proof {
                    assert(items_valid(vs.subrange(0, i as int)));
                }
                return Err(OrderError::InvalidPrice);
            }
            i += 1;
        }
        proof {
            assert(items_valid(vs));
        }
        let mut total: i128 = 0;
        let mut k: usize = 0;
        proof {
            assert(vs.subrange(0, 0) =~= Seq::<OrderItemView>::empty());
        }
        while k < n
            invariant
                0 <= k <= n,
                total == order_total(vs.subrange(0, k as int)),
            decreases n - k,
        {
            proof {
                assert(vs.subrange(0, k as int + 1).drop_last() =~= vs.subrange(0, k as int));
                assert(vs.subrange(0, k as int + 1).last() == vs[k as int]);
                assert(vs[k as int] == items@[k as int]@);
                lemma_order_total_prefix(vs, k as int);
                lemma_order_total_prefix(vs, k as int + 1);
            }
            total = total + items[k].unit_price * (items[k].quantity as i128);
            k += 1;
        }
        proof {
            assert(vs.subrange(0, n as int) =~= vs);
        }
        let id: u64 = self.count + 1;
        let order = Order {
            id,
            restaurant_id,
            customer,
            items,
            total_amount: total,
            status: OrderStatus::Pending,
            created_at: now,
            updated_at: now,
            notes,
        };
        self.orders.push(order);
        let mut rlist = self.restaurant_orders.get(restaurant_id);
        rlist.push(id);
        self.restaurant_orders.set(restaurant_id, rlist);
        let mut clist = self.customer_orders.get(customer);
        clist.push(id);
        self.customer_orders.set(customer, clist);
        self.count = id;
        proof {
            assert forall|oid: u64|
                oid != id implies #[trigger] self.spec_order(oid) == old(self).spec_order(oid) by {
                if 1 <= oid <= old(self).orders@.len() {
                    assert(self.orders@[oid - 1] == old(self).orders@[oid - 1]);
                }
            }
        }
        Ok(id)
    }

    /// Cancels an order: the admin may cancel any order that is not yet
    /// delivered or cancelled; the customer only their own and only while it
    /// is pending. Stamps the change `now`. An error changes nothing.
    pub fn cancel_order(&mut self, caller: u64, order_id: u64, now: u64) -> (r: Result<
        (),
        OrderError,
    >)
        requires
            old(self).wf(),
        ensures
            final(self).wf(),
            match old(self).spec_order(order_id) {
                None => r == Err::<(), OrderError>(OrderError::OrderNotFound) && *final(self)
                    == *old(self),
                Some(o) => {
                    if old(self).spec_admin() is None {
                        r == Err::<(), OrderError>(OrderError::NotInitialized) && *final(self)
                            == *old(self)
                    } else if caller != old(self).spec_admin()->Some_0 && caller != o.customer {
                        r == Err::<(), OrderError>(OrderError::Unauthorized) && *final(self)
                            == *old(self)
                    } else if o.status == OrderStatus::Delivered {
                        r == Err::<(), OrderError>(OrderError::AlreadyDelivered) && *final(self)
                            == *old(self)
                    } else if o.status == OrderStatus::Cancelled {
                        r == Err::<(), OrderError>(OrderError::AlreadyCancelled) && *final(self)
                            == *old(self)
                    } else if caller == o.customer && o.status != OrderStatus::Pending {
                        r == Err::<(), OrderError>(OrderError::CannotCancel) && *final(self)
                            == *old(self)
                    } else {
                        &&& r == Ok::<(), OrderError>(())
                        &&& final(self).spec_order(order_id) == Some(
                            (OrderView { status: OrderStatus::Cancelled, updated_at: now, ..o }),
                        )
                        &&& forall|oid: u64|
                            oid != order_id ==> #[trigger] final(self).spec_order(oid) == old(
                                self,
                            ).spec_order(oid)
                        &&& Self::same_rest(old(self), final(self))
                    }
                },
            },
    {
        if !(order_id >= 1 && order_id <= self.orders.len() as u64) {
            return Err(OrderError::OrderNotFound);
        }
        let admin = match self.admin {
            None => {
                return Err(OrderError::NotInitialized);
            },
            Some(a) => a,
        };
        let idx = (order_id - 1) as usize;
        let is_admin = caller == admin;
        let is_customer = caller == self.orders[idx].customer;
        if !is_admin && !is_customer {
            return Err(OrderError::Unauthorized);
        }
        if self.orders[idx].status == OrderStatus::Delivered {
            return Err(OrderError::AlreadyDelivered);
        }
        if self.orders[idx].status == OrderStatus::Cancelled {
            return Err(OrderError::AlreadyCancelled);
        }
        if is_customer && self.orders[idx].status != OrderStatus::Pending {
            return Err(OrderError::CannotCancel);
        }
        self.orders[idx].status = OrderStatus::Cancelled;
        self.orders[idx].updated_at = now;
        proof {
            self.lemma_one_order_changed(old(self), idx as int);
        }
        Ok(())
    }

    /// Advances an order to the next lifecycle status. Only the admin may
    /// call; a delivered or cancelled order does not advance. Stamps the
    /// change `now`. An error changes nothing.
    pub fn advance_status(&mut self, caller: u64, order_id: u64, now: u64) -> (r: Result<
        (),
        OrderError,
    >)
        requires
            old(self).wf(),
        ensures
            final(self).wf(),
            old(self).spec_admin() is None ==> r == Err::<(), OrderError>(
                OrderError::NotInitialized,
            ) && *final(self) == *old(self),
            old(self).spec_admin() is Some && old(self).spec_admin() != Some(caller) ==> r == Err::<
                (),
                OrderError,
            >(OrderError::Unauthorized) && *final(self) == *old(self),
            old(self).spec_admin() == Some(caller) ==> match old(self).spec_order(order_id) {
                None => r == Err::<(), OrderError>(OrderError::OrderNotFound) && *final(self)
                    == *old(self),
                Some(o) => {
                    if o.status == OrderStatus::Delivered {
                        r == Err::<(), OrderError>(OrderError::AlreadyDelivered) && *final(self)
                            == *old(self)
                    } else if o.status == OrderStatus::Cancelled {
                        r == Err::<(), OrderError>(OrderError::AlreadyCancelled) && *final(self)
                            == *old(self)
                    } else {
                        &&& r == Ok::<(), OrderError>(())
                        &&& final(self).spec_order(order_id) == Some(
                            (OrderView { status: next_status(o.status), updated_at: now, ..o }),
                        )
                        &&& forall|oid: u64|
                            oid != order_id ==> #[trigger] final(self).spec_order(oid) == old(
                                self,
                            ).spec_order(oid)
                        &&& Self::same_rest(old(self), final(self))
                    }
                },
            },
    {
        let admin = match self.admin {
            None => {
                return Err(OrderError::NotInitialized);
            },
            Some(a) => a,
        };
        if caller != admin {
            return Err(OrderError::Unauthorized);
        }
        if !(order_id >= 1 && order_id <= self.orders.len() as u64) {
            return Err(OrderError::OrderNotFound);
        }
        let idx = (order_id - 1) as usize;
        let new_status = match self.orders[idx].status {
            OrderStatus::Pending => OrderStatus::Confirmed,
            OrderStatus::Confirmed => OrderStatus::Preparing,
            OrderStatus::Preparing => OrderStatus::Ready,
            OrderStatus::Ready => OrderStatus::Delivered,
            OrderStatus::Delivered => {
                return Err(OrderError::AlreadyDelivered);
            },
            OrderStatus::Cancelled => {
                return Err(OrderError::AlreadyCancelled);
            },
        };
        self.orders[idx].status = new_status;
        self.orders[idx].updated_at = now;
        proof {
            self.lemma_one_order_changed(old(self), idx as int);
        }
        Ok(())
    }

    /// Sets an order's status directly, for dispute resolution. Only the
    /// admin may call. Stamps the change `now`. An error changes nothing.
    pub fn set_status(&mut self, caller: u64, order_id: u64, status: OrderStatus, now: u64) -> (r:
        Result<(), OrderError>)
        requires
            old(self).wf(),
        ensures
            final(self).wf(),
            old(self).spec_admin() is None ==> r == Err::<(), OrderError>(
                OrderError::NotInitialized,
            ) && *final(self) == *old(self),
            old(self).spec_admin() is Some && old(self).spec_admin() != Some(caller) ==> r == Err::<
                (),
                OrderError,
            >(OrderError::Unauthorized) && *final(self) == *old(self),
            old(self).spec_admin() == Some(caller) ==> match old(self).spec_order(order_id) {
                None => r == Err::<(), OrderError>(OrderError::OrderNotFound) && *final(self)
                    == *old(self),
                Some(o) => {
                    &&& r == Ok::<(), OrderError>(())
                    &&& final(self).spec_order(order_id) == Some(
                        (OrderView { status, updated_at: now, ..o }),
                    )
                    &&& forall|oid: u64|
                        oid != order_id ==> #[trigger] final(self).spec_order(oid) == old(
                            self,
                        ).spec_order(oid)
                    &&& Self::same_rest(old(self), final(self))
                },
            },
    {
        let admin = match self.admin {
            None => {
                return Err(OrderError::NotInitialized);
            },
            Some(a) => a,
        };
        if caller != admin {
            return Err(OrderError::Unauthorized);
        }
        if !(order_id >= 1 && order_id <= self.orders.len() as u64) {
            return Err(OrderError::OrderNotFound);
        }
        let idx = (order_id - 1) as usize;
        self.orders[idx].status = status;
        self.orders[idx].updated_at = now;
        proof {
            self.lemma_one_order_changed(old(self), idx as int);
        }
        Ok(())
    }

    /// The admin, the count and the two indexes agree between two states.
    pub open spec fn same_rest(pre: &Self, post: &Self) -> bool {
        &&& post.spec_admin() == pre.spec_admin()
        &&& post.spec_count() == pre.spec_count()
        &&& forall|x: u64| #[trigger] post.spec_restaurant_orders(x) == pre.spec_restaurant_orders(
            x,
        )
        &&& forall|x: u64| #[trigger] post.spec_customer_orders(x) == pre.spec_customer_orders(x)
    }

    /// After an in-place change of the order at `idx`, every other order
    /// reads as before.
    proof fn lemma_one_order_changed(&self, pre: &Self, idx: int)
        requires
            pre.wf(),
            0 <= idx < pre.orders@.len(),
            self.orders@.len() == pre.orders@.len(),
            forall|j: int|
                0 <= j < pre.orders@.len() && j != idx ==> #[trigger] self.orders@[j]
                    == pre.orders@[j],
            self.orders@[idx].id == pre.orders@[idx].id,
            self.admin == pre.admin,
            self.count == pre.count,
            self.restaurant_orders == pre.restaurant_orders,
            self.customer_orders == pre.customer_orders,
        ensures
            self.wf(),
            forall|oid: u64|
                oid != idx + 1 ==> #[trigger] self.spec_order(oid) == pre.spec_order(oid),
            Self::same_rest(pre, self),
    {
        assert forall|i: int| 0 <= i < self.orders@.len() implies (#[trigger] self.orders@[i]).id
            == i + 1 by {
            if i != idx {
                assert(self.orders@[i] == pre.orders@[i]);
            }
        }
        assert forall|oid: u64| oid != idx + 1 implies #[trigger] self.spec_order(oid)
            == pre.spec_order(oid) by {
            if 1 <= oid <= pre.orders@.len() {
                assert(self.orders@[oid - 1] == pre.orders@[oid - 1]);
            }
        }
    }

    /// The order with the given identifier. A pure read.
    pub fn get_order(&self, order_id: u64) -> (r: Result<Order, OrderError>)
        requires
            self.wf(),
        ensures
            match self.spec_order(order_id) {
                None => r == Err::<Order, OrderError>(OrderError::OrderNotFound),
                Some(o) => r is Ok && r->Ok_0@ == o,
            },
    {
        if !(order_id >= 1 && order_id <= self.orders.len() as u64) {
            return Err(OrderError::OrderNotFound);
        }
        let idx = (order_id - 1) as usize;
        Ok(clone_order(&self.orders[idx]))
    }

    /// A restaurant's order identifiers, oldest first. A pure read.
    pub fn get_restaurant_orders(&self, restaurant_id: u64) -> (r: Vec<u64>)
        requires
            self.wf(),
        ensures
            r@ == self.spec_restaurant_orders(restaurant_id),
    {
        self.restaurant_orders.get(restaurant_id)
    }

    /// A customer's order identifiers, oldest first. A pure read.
    pub fn get_customer_orders(&self, customer: u64) -> (r: Vec<u64>)
        requires
            self.wf(),
        ensures
            r@ == self.spec_customer_orders(customer),
    {
        self.customer_orders.get(customer)
    }

    /// How many orders were ever placed. A pure read.
    pub fn get_count(&self) -> (r: u64)
        ensures
            r == self.spec_count(),
    {
        self.count
    }
}

} // verus!
