//! The order ledger: every order under its identifier, and the identifiers by user.

use crate::errors::Error;
use crate::limit_orders::{LimitOrder, LimitOrderView, OrderStatus};
use crate::types::Address;
use vstd::prelude::*;

verus! {

/// What a list of orders stands for.
pub open spec fn orders_view(orders: Seq<LimitOrder>) -> Seq<LimitOrderView> {
    orders.map_values(|o: LimitOrder| o@)
}

/// The identifiers of the orders of `user` among `orders`, in their order.
pub open spec fn ids_of(orders: Seq<LimitOrderView>, user: Address) -> Seq<u64>
    decreases orders.len(),
{
    if orders.len() == 0 {
        Seq::empty()
    } else {
        let before = ids_of(orders.drop_last(), user);
        if orders.last().user == user {
            before.push(orders.last().order_id)
        } else {
            before
        }
    }
}

/// Whether the order at each position `i` has the identifier `i + 1`.
pub open spec fn numbered(orders: Seq<LimitOrderView>) -> bool {
    &&& orders.len() < u64::MAX
    &&& forall|i: int| 0 <= i < orders.len() ==> (#[trigger] orders[i]).order_id == i + 1
}

/// The identifiers of one user's orders.
struct UserOrders {
    user: Address,
    order_ids: Vec<u64>,
}

/// Whether `index` has an entry for `user`.
spec fn indexed(index: Seq<UserOrders>, user: Address) -> bool {
    exists|j: int| 0 <= j < index.len() && (#[trigger] index[j]).user == user
}

/// The orders, and for each user the identifiers of their orders, kept in step.
pub struct OrderLedger {
    orders: Vec<LimitOrder>,
    index: Vec<UserOrders>,
}

impl View for OrderLedger {
    type V = Seq<LimitOrderView>;

    closed spec fn view(&self) -> Seq<LimitOrderView> {
        orders_view(self.orders@)
    }
}

/// A change of status leaves the identifiers by user as they are.
proof fn lemma_ids_of_status(
    orders: Seq<LimitOrderView>,
    i: int,
    status: OrderStatus,
    user: Address,
)
    requires
        0 <= i < orders.len(),
    ensures
        ids_of(orders.update(i, orders[i].with_status(status)), user) == ids_of(orders, user),
    decreases orders.len(),
{
    let changed = orders.update(i, orders[i].with_status(status));
    if i == orders.len() - 1 {
        assert(changed.drop_last() =~= orders.drop_last());
    } else {
        assert(changed.drop_last() =~= orders.drop_last().update(
            i,
            orders.drop_last()[i].with_status(status),
        ));
        lemma_ids_of_status(orders.drop_last(), i, status, user);
    }
}

/// A user with no order has no identifiers.
proof fn lemma_ids_of_none(orders: Seq<LimitOrderView>, user: Address)
    requires
        forall|i: int| 0 <= i < orders.len() ==> (#[trigger] orders[i]).user != user,
    ensures
        ids_of(orders, user) == Seq::<u64>::empty(),
    decreases orders.len(),
{
    if orders.len() > 0 {
        assert(orders.last() == orders[orders.len() - 1]);
        lemma_ids_of_none(orders.drop_last(), user);
    }
}

/// The identifiers of a user's orders lead to that user's orders, in their order.
proof fn lemma_ids_of_orders(orders: Seq<LimitOrderView>, user: Address)
    requires
        numbered(orders),
    ensures
        ids_of(orders, user).len() == orders.filter(|o: LimitOrderView| o.user == user).len(),
        forall|k: int|
            0 <= k < ids_of(orders, user).len() ==> 1 <= (#[trigger] ids_of(orders, user)[k])
                <= orders.len() && orders[ids_of(orders, user)[k] - 1] == orders.filter(
                |o: LimitOrderView| o.user == user,
            )[k],
    decreases orders.len(),
{
    reveal(Seq::filter);
    if orders.len() > 0 {
        lemma_ids_of_orders(orders.drop_last(), user);
    }
}

impl OrderLedger {
    /// What holds of every ledger.
    pub closed spec fn inv(&self) -> bool {
        &&& numbered(self@)
        &&& forall|j: int, k: int|
            0 <= j < k < self.index@.len() ==> (#[trigger] self.index@[j]).user != (
            #[trigger] self.index@[k]).user
        &&& forall|j: int|
            0 <= j < self.index@.len() ==> (#[trigger] self.index@[j]).order_ids@ == ids_of(
                self@,
                self.index@[j].user,
            )
        &&& forall|i: int|
            0 <= i < self@.len() ==> indexed(self.index@, (#[trigger] self@[i]).user)
    }

    /// Every ledger numbers its orders from one.
    pub proof fn lemma_numbered(&self)
        requires
            self.inv(),
        ensures
            numbered(self@),
    {
    }

    /// A ledger without orders.
    pub fn new() -> (r: OrderLedger)
        ensures
            r.inv(),
            r@ == Seq::<LimitOrderView>::empty(),
    {
        let r = OrderLedger { orders: Vec::new(), index: Vec::new() };
        assert(r@ =~= Seq::<LimitOrderView>::empty());
        r
    }

    /// The number of orders.
    pub fn len(&self) -> (r: usize)
        ensures
            r == self@.len(),
    {
        self.orders.len()
    }

    /// The order with the identifier `order_id`, if there is one.
    pub fn get(&self, order_id: u64) -> (r: Option<&LimitOrder>)
        ensures
            match r {
                Some(order) => 1 <= order_id <= self@.len() && order@ == self@[order_id - 1],
                None => !(1 <= order_id <= self@.len()),
            },
    {
        if order_id == 0 || order_id > self.orders.len() as u64 {
            None
        } else {
            Some(&self.orders[(order_id - 1) as usize])
        }
    }

    /// The position of the entry for `user` in the index, if it has one.
    fn position(&self, user: Address) -> (r: Option<usize>)
        ensures
            match r {
                Some(j) => j < self.index@.len() && self.index@[j as int].user == user,
                None => !indexed(self.index@, user),
            },
    {
        let mut j: usize = 0;
        while j < self.index.len()
            invariant
                j <= self.index@.len(),
                forall|k: int| 0 <= k < j ==> (#[trigger] self.index@[k]).user != user,
            decreases self.index@.len() - j,
        {
            if self.index[j].user == user {
                return Some(j);
            }
            j += 1;
        }
        None
    }

    /// Adds `order` under the next identifier, whatever identifier it came with, and returns
    /// that identifier. Refused with `OrderIdsExhausted` where no identifier is left.
    pub fn append(&mut self, order: LimitOrder) -> (r: Result<u64, Error>)
        requires
            old(self).inv(),
        ensures
            final(self).inv(),
            old(self)@.len() + 1 >= u64::MAX ==> r == Err::<u64, Error>(Error::OrderIdsExhausted)
                && final(self)@ == old(self)@,
            old(self)@.len() + 1 < u64::MAX ==> r == Ok::<u64, Error>(
                (old(self)@.len() + 1) as u64,
            ) && final(self)@ == old(self)@.push(
                (LimitOrderView { order_id: (old(self)@.len() + 1) as u64, ..order@ }),
            ),
    {
        let ghost before = self@;
        let ghost old_index = self.index@;
        let count = self.orders.len() as u64;
        if count >= u64::MAX - 1 {
            return Err(Error::OrderIdsExhausted);
        }
        let order_id = count + 1;
        let user = order.user;
        let mut order = order;
        order.order_id = order_id;
        let found = self.position(user);
        self.orders.push(order);
        assert(self@ =~= before.push(order@));
        assert(self@.drop_last() =~= before);
        match found {
            Some(j) => {
                self.index[j].order_ids.push(order_id);
                proof {
                    assert forall|k: int| 0 <= k < self.index@.len() implies (
                    #[trigger] self.index@[k]).order_ids@ == ids_of(self@, self.index@[k].user) by {
                        assert(self.index@[k].user == old_index[k].user);
                    }
                    assert forall|i: int| 0 <= i < self@.len() implies indexed(
                        self.index@,
                        (#[trigger] self@[i]).user,
                    ) by {
                        if i < before.len() {
                            assert(self@[i] == before[i]);
                            let w = choose|w: int|
                                0 <= w < old_index.len() && (#[trigger] old_index[w]).user
                                    == before[i].user;
                            assert(self.index@[w].user == before[i].user);
                        } else {
                            assert(self.index@[j as int].user == user);
                        }
                    }
                }
            },
            None => {
                proof {
                    assert forall|i: int| 0 <= i < before.len() implies (
                    #[trigger] before[i]).user != user by {
                        if before[i].user == user {
                            assert(indexed(old_index, before[i].user));
                        }
                    }
                    lemma_ids_of_none(before, user);
                }
                let mut order_ids: Vec<u64> = Vec::new();
                order_ids.push(order_id);
                self.index.push(UserOrders { user, order_ids });
                proof {
                    assert(self.index@[old_index.len() as int].order_ids@ =~= Seq::<
                        u64,
                    >::empty().push(order_id));
                    assert forall|i: int| 0 <= i < self@.len() implies indexed(
                        self.index@,
                        (#[trigger] self@[i]).user,
                    ) by {
                        if i < before.len() {
                            assert(self@[i] == before[i]);
                            let w = choose|w: int|
                                0 <= w < old_index.len() && (#[trigger] old_index[w]).user
                                    == before[i].user;
                            assert(self.index@[w].user == before[i].user);
                        } else {
                            assert(self.index@[old_index.len() as int].user == user);
                        }
                    }
                }
            },
        }
        Ok(order_id)
    }
}

impl OrderLedger {
    /// Moves the pending order `order_id` to the status `to`, which ends it. Refused with
    /// `OrderNotFound` where there is no such order, and with `InvalidState` where the order
    /// is not pending or `to` is `Pending`.
    pub fn transition(&mut self, order_id: u64, to: OrderStatus) -> (r: Result<(), Error>)
        requires
            old(self).inv(),
        ensures
            final(self).inv(),
            !(1 <= order_id <= old(self)@.len()) ==> r == Err::<(), Error>(Error::OrderNotFound)
                && final(self)@ == old(self)@,
            1 <= order_id <= old(self)@.len() && (old(self)@[order_id - 1].status
                != OrderStatus::Pending || to == OrderStatus::Pending) ==> r == Err::<(), Error>(
                Error::InvalidState,
            ) && final(self)@ == old(self)@,
            1 <= order_id <= old(self)@.len() && old(self)@[order_id - 1].status
                == OrderStatus::Pending && to != OrderStatus::Pending ==> r == Ok::<(), Error>(())
                && final(self)@ == old(self)@.update(
                order_id - 1,
                old(self)@[order_id - 1].with_status(to),
            ),
    {
        if order_id == 0 || order_id > self.orders.len() as u64 {
            return Err(Error::OrderNotFound);
        }
        let i = (order_id - 1) as usize;
        if self.orders[i].status != OrderStatus::Pending || to == OrderStatus::Pending {
            return Err(Error::InvalidState);
        }
        let ghost before = self@;
        self.orders[i].status = to;
        proof {
            assert(self@ =~= before.update(i as int, before[i as int].with_status(to)));
            assert forall|j: int| 0 <= j < self.index@.len() implies (
            #[trigger] self.index@[j]).order_ids@ == ids_of(self@, self.index@[j].user) by {
                lemma_ids_of_status(before, i as int, to, self.index@[j].user);
            }
            assert forall|k: int| 0 <= k < self@.len() implies indexed(
                self.index@,
                (#[trigger] self@[k]).user,
            ) by {
                assert(self@[k].user == before[k].user);
            }
        }
        Ok(())
    }

    /// The pending orders, by identifier.
    pub fn list_pending(&self) -> (r: Vec<LimitOrder>)
        ensures
            orders_view(r@) == self@.filter(|o: LimitOrderView| o.status == OrderStatus::Pending),
    {
        let ghost pending = |o: LimitOrderView| o.status == OrderStatus::Pending;
        let mut out: Vec<LimitOrder> = Vec::new();
        let mut i: usize = 0;
        proof {
            reveal(Seq::filter);
            assert(self@.take(0) =~= Seq::<LimitOrderView>::empty());
            assert(orders_view(out@) =~= self@.take(0).filter(pending));
        }
        while i < self.orders.len()
            invariant
                i <= self.orders@.len(),
                pending == |o: LimitOrderView| o.status == OrderStatus::Pending,
                orders_view(out@) == self@.take(i as int).filter(pending),
            decreases self.orders@.len() - i,
        {
            proof {
                assert(self@.take(i + 1) =~= self@.take(i as int).push(self@[i as int]));
                self@.take(i as int).lemma_filter_push(self@[i as int], pending);
            }
            if self.orders[i].status == OrderStatus::Pending {
                let ghost earlier = out@;
                let order = self.orders[i].clone();
                out.push(order);
                assert(orders_view(out@) =~= orders_view(earlier).push(self@[i as int]));
            }
            i += 1;
        }
        proof {
            assert(self@.take(i as int) =~= self@);
        }
        out
    }

    /// The orders that `user` placed, by identifier.
    pub fn list_by_user(&self, user: Address) -> (r: Vec<LimitOrder>)
        requires
            self.inv(),
        ensures
            orders_view(r@) == self@.filter(|o: LimitOrderView| o.user == user),
    {
        let ghost wanted = self@.filter(|o: LimitOrderView| o.user == user);
        let mut out: Vec<LimitOrder> = Vec::new();
        proof {
            lemma_ids_of_orders(self@, user);
        }
        match self.position(user) {
            None => {
                proof {
                    assert forall|i: int| 0 <= i < self@.len() implies (#[trigger] self@[i]).user
                        != user by {
                        if self@[i].user == user {
                            assert(indexed(self.index@, self@[i].user));
                        }
                    }
                    lemma_ids_of_none(self@, user);
                    assert(orders_view(out@) =~= wanted);
                }
            },
            Some(j) => {
                let ids = &self.index[j].order_ids;
                let n = self.orders.len();
                let mut k: usize = 0;
                while k < ids.len()
                    invariant
                        k <= ids@.len(),
                        ids@ == ids_of(self@, user),
                        ids@.len() == wanted.len(),
                        out@.len() == k,
                        self@.len() == n,
                        n == self.orders@.len(),
                        forall|m: int|
                            0 <= m < ids@.len() ==> 1 <= (#[trigger] ids@[m]) <= self@.len()
                                && self@[ids@[m] - 1] == wanted[m],
                        forall|m: int| 0 <= m < k ==> (#[trigger] out@[m])@ == wanted[m],
                    decreases ids@.len() - k,
                {
                    let id = ids[k];
                    let order = self.orders[(id - 1) as usize].clone();
                    out.push(order);
                    k += 1;
                }
                proof {
                    assert(orders_view(out@) =~= wanted);
                }
            },
        }
        out
    }
}

} // verus!
