//! Limit orders: the order record, the price calculator and the operations on orders.

use crate::biguint::BigUint;
use crate::dex::{
    execution_fee, swap_output, DexModule, Settlement, SettlementView, SwapRequest,
    SwapRequestView, SwapResult,
};
use crate::errors::{outcome, Error};
use crate::events::EventsModule;
use crate::ledger::orders_view;
use crate::model::OrderRequest;
use crate::storage::StorageModule;
use crate::types::{Address, TokenIdentifier, Transfer, TransferView};
use vstd::prelude::*;

verus! {

/// One hundred percent, in basis points.
pub const BASIS_POINTS: u64 = 10000;

/// Where an order stands. Only `Pending` can change, and only once.
#[derive(Clone, Copy, PartialEq, Eq, Structural, Debug)]
pub enum OrderStatus {
    Pending,
    Executed,
    Cancelled,
    Expired,
}

/// A standing request to exchange `from_amount` of `from_token` for `to_token` once the price
/// is at or better than the target.
#[derive(Debug)]
pub struct LimitOrder {
    pub order_id: u64,
    pub user: Address,
    pub from_token: TokenIdentifier,
    pub from_amount: BigUint,
    pub to_token: TokenIdentifier,
    pub target_price_numerator: BigUint,
    pub target_price_denominator: BigUint,
    pub slippage_bp: u64,
    pub expires_at: u64,
    pub status: OrderStatus,
    pub created_at: u64,
}

/// What a [`LimitOrder`] stands for.
pub struct LimitOrderView {
    pub order_id: u64,
    pub user: Address,
    pub from_token: Seq<u8>,
    pub from_amount: nat,
    pub to_token: Seq<u8>,
    pub target_price_numerator: nat,
    pub target_price_denominator: nat,
    pub slippage_bp: u64,
    pub expires_at: u64,
    pub status: OrderStatus,
    pub created_at: u64,
}

impl View for LimitOrder {
    type V = LimitOrderView;

    open spec fn view(&self) -> LimitOrderView {
        LimitOrderView {
            order_id: self.order_id,
            user: self.user,
            from_token: self.from_token@,
            from_amount: self.from_amount@,
            to_token: self.to_token@,
            target_price_numerator: self.target_price_numerator@,
            target_price_denominator: self.target_price_denominator@,
            slippage_bp: self.slippage_bp,
            expires_at: self.expires_at,
            status: self.status,
            created_at: self.created_at,
        }
    }
}

impl Clone for LimitOrder {
    fn clone(&self) -> (r: LimitOrder)
        ensures
            r@ == self@,
    {
        LimitOrder {
            order_id: self.order_id,
            user: self.user,
            from_token: self.from_token.clone(),
            from_amount: self.from_amount.clone(),
            to_token: self.to_token.clone(),
            target_price_numerator: self.target_price_numerator.clone(),
            target_price_denominator: self.target_price_denominator.clone(),
            slippage_bp: self.slippage_bp,
            expires_at: self.expires_at,
            status: self.status,
            created_at: self.created_at,
        }
    }
}

impl LimitOrderView {
    /// What every order satisfies from its creation on.
    pub open spec fn well_formed(self) -> bool {
        &&& self.from_token != self.to_token
        &&& self.from_amount > 0
        &&& self.target_price_numerator > 0
        &&& self.target_price_denominator > 0
        &&& self.slippage_bp <= 10000
        &&& self.created_at <= self.expires_at
    }

    /// The same order in another status.
    pub open spec fn with_status(self, status: OrderStatus) -> LimitOrderView {
        LimitOrderView { status, ..self }
    }

    /// Whether `other` is this order, but for its status.
    pub open spec fn same_terms(self, other: LimitOrderView) -> bool {
        other.with_status(self.status) == self
    }

    /// The least output that this order accepts from a swap.
    pub open spec fn minimum_output(self) -> nat {
        minimum_output(
            self.from_amount,
            self.target_price_numerator,
            self.target_price_denominator,
            self.slippage_bp as nat,
        )
    }

    /// Whether an observed price of `numerator / denominator` is at or better than the target.
    pub open spec fn price_met(self, numerator: nat, denominator: nat) -> bool {
        numerator * self.target_price_denominator <= self.target_price_numerator * denominator
    }
}

/// The output expected at the target price, lowered by the slippage tolerance; each division
/// rounds down.
pub open spec fn minimum_output(
    from_amount: nat,
    price_numerator: nat,
    price_denominator: nat,
    slippage_bp: nat,
) -> nat {
    (((from_amount * price_numerator) / price_denominator) * ((10000 - slippage_bp) as nat))
        / 10000
}

/// Computes [`minimum_output`].
pub fn calculate_min_output(
    from_amount: &BigUint,
    target_price_num: &BigUint,
    target_price_denom: &BigUint,
    slippage_bp: u64,
) -> (r: BigUint)
    requires
        target_price_denom@ > 0,
        slippage_bp <= 10000,
    ensures
        r@ == minimum_output(
            from_amount@,
            target_price_num@,
            target_price_denom@,
            slippage_bp as nat,
        ),
{
    let expected_output = from_amount.mul(target_price_num).div(target_price_denom);
    let slippage_factor: u64 = BASIS_POINTS - slippage_bp;
    expected_output.mul(&BigUint::from_u64(slippage_factor)).div(&BigUint::from_u64(BASIS_POINTS))
}

/// The operations on limit orders. Who calls and at what time is handed in with each call.
pub trait LimitOrdersModule: StorageModule + EventsModule + DexModule {
    /// Places an order of `caller`, who hands over `from_amount` of `from_token` with the call:
    /// the contract holds it until the order is executed or cancelled. Returns the
    /// identifier of the new order.
    ///
    /// The checks, in their order: the contract is not paused; both tokens are whitelisted;
    /// they differ; the amount and both parts of the price are not zero; the slippage
    /// tolerance is within the configured maximum and within 100%; the expiry time and the
    /// identifier fit in 64 bits.
    fn create_limit_order(
        &mut self,
        caller: Address,
        now: u64,
        from_token: TokenIdentifier,
        from_amount: BigUint,
        to_token: TokenIdentifier,
        target_price_num: BigUint,
        target_price_denom: BigUint,
        slippage_bp: u64,
        expires_in_seconds: u64,
    ) -> (r: Result<u64, Error>)
        requires
            old(self).inv(),
        ensures
            final(self).inv(),
            ({
                let request = OrderRequest {
                    caller,
                    now,
                    from_token: from_token@,
                    from_amount: from_amount@,
                    to_token: to_token@,
                    target_price_num: target_price_num@,
                    target_price_denom: target_price_denom@,
                    slippage_bp,
                    expires_in_seconds,
                };
                &&& r == old(self).model().create_result(request)
                &&& final(self).model() == old(self).model().after_create(request)
            }),
            r is Err ==> final(self).model() == old(self).model(),
            r matches Ok(order_id) ==> ({
                let before = old(self).model();
                let after = final(self).model();
                &&& order_id == before.orders.len() + 1
                &&& now + expires_in_seconds <= u64::MAX
                &&& after.orders == before.orders.push(
                    LimitOrderView {
                        order_id,
                        user: caller,
                        from_token: from_token@,
                        from_amount: from_amount@,
                        to_token: to_token@,
                        target_price_numerator: target_price_num@,
                        target_price_denominator: target_price_denom@,
                        slippage_bp,
                        expires_at: (now + expires_in_seconds) as u64,
                        status: OrderStatus::Pending,
                        created_at: now,
                    },
                )
                &&& after.pending_swaps == before.pending_swaps
            }),
    ;

    /// Starts the execution of the order `order_id` at the observed price
    /// `current_price_num / current_price_denom`. Returns the swap to send; the order stays
    /// pending until the result of the swap comes in.
    ///
    /// The checks, in their order: the contract is not paused; `caller` is the executor; the
    /// order exists; it is pending; `now` is not after its expiry time; the observed price is
    /// at or better than its target price; no swap is under way for it; a pair is set.
    ///
    /// A swap whose result never comes in stays noted as under way, and keeps the order
    /// from being executed again: nothing here takes such a swap back. The order can still
    /// be cancelled.
    fn execute_limit_order(
        &mut self,
        caller: Address,
        now: u64,
        order_id: u64,
        current_price_num: BigUint,
        current_price_denom: BigUint,
    ) -> (r: Result<SwapRequest, Error>)
        requires
            old(self).inv(),
        ensures
            final(self).inv(),
            ({
                let before = old(self).model();
                let expected = before.execute_result(
                    caller,
                    now,
                    order_id,
                    current_price_num@,
                    current_price_denom@,
                );
                &&& final(self).model() == before.after_execute(
                    caller,
                    now,
                    order_id,
                    current_price_num@,
                    current_price_denom@,
                )
                &&& match r {
                    Ok(request) => expected == Ok::<SwapRequestView, Error>(request@),
                    Err(e) => expected == Err::<SwapRequestView, Error>(e),
                }
            }),
            r is Err ==> final(self).model() == old(self).model(),
            r matches Ok(request) ==> ({
                let before = old(self).model();
                let after = final(self).model();
                &&& after.orders == before.orders
                &&& !before.pending_swaps.contains_key(order_id)
                &&& after.pending_swaps == before.pending_swaps.insert(
                    order_id,
                    before.context_for(order_id, caller),
                )
                &&& request@.min_amount_out == before.order(order_id).minimum_output()
            }),
            old(self).model().has_order(order_id) && !old(self).model().order(order_id).price_met(
                current_price_num@,
                current_price_denom@,
            ) ==> r is Err,
    ;

    /// Takes in the result of the swap for the order `order_id`. Returns what is to be paid
    /// out of the swap's output.
    ///
    /// Without a swap under way for the order the result is refused with `ContextNotFound`,
    /// and nothing changes. Otherwise the swap is no longer under way, whatever follows, so
    /// that a result is taken in once. A swap that failed is refused with `SwapFailed`, and
    /// one that gave less than the order's minimum output with `SlippageViolation`: the
    /// order stays pending and can be executed anew. An order that was cancelled while its
    /// swap was under way stays cancelled: the result is refused with `InvalidState`, and
    /// nothing is paid out.
    fn swap_callback(&mut self, now: u64, order_id: u64, result: SwapResult) -> (r: Result<
        Settlement,
        Error,
    >)
        requires
            old(self).inv(),
        ensures
            final(self).inv(),
            ({
                let before = old(self).model();
                let expected = before.callback_result(order_id, result@);
                &&& final(self).model() == before.after_callback(now, order_id, result@)
                &&& match r {
                    Ok(settlement) => expected == Ok::<SettlementView, Error>(settlement@),
                    Err(e) => expected == Err::<SettlementView, Error>(e),
                }
            }),
            ({
                let before = old(self).model();
                let after = final(self).model();
                let no_swap = Err::<Settlement, Error>(Error::ContextNotFound);
                &&& !after.pending_swaps.contains_key(order_id)
                &&& r == no_swap <==> !before.pending_swaps.contains_key(order_id)
                &&& r == no_swap ==> after == before
                &&& r is Err ==> after.orders == before.orders && after.events == before.events
                &&& r is Ok ==> before.order(order_id).status == OrderStatus::Pending
                    && after.orders == before.orders.update(
                    order_id - 1,
                    before.order(order_id).with_status(OrderStatus::Executed),
                )
            }),
            r matches Ok(settlement) ==> ({
                let context = old(self).model().pending_swaps[order_id];
                let output = swap_output(result@->Completed_0, context.to_token);
                let fee = execution_fee(output, old(self).model().execution_fee_bps as nat);
                &&& output >= context.min_amount_out
                &&& fee <= output
                &&& settlement@.user_payment.to == context.user
                &&& settlement@.user_payment.amount == output - fee
                &&& fee == 0 ==> settlement@.executor_fee is None
                &&& fee > 0 ==> (settlement@.executor_fee matches Some(paid) && paid.to
                    == context.executor && paid.amount == fee)
            }),
    ;

    /// Cancels the order `order_id` of `caller`. Returns what is to be handed back: all that
    /// the order holds. A pending order can be cancelled at any time, also while a swap is
    /// under way for it and while the contract is paused.
    fn cancel_limit_order(&mut self, caller: Address, order_id: u64) -> (r: Result<Transfer, Error>)
        requires
            old(self).inv(),
        ensures
            final(self).inv(),
            ({
                let before = old(self).model();
                let expected = before.cancel_result(caller, order_id);
                &&& final(self).model() == before.after_cancel(caller, order_id)
                &&& match r {
                    Ok(refund) => expected == Ok::<TransferView, Error>(refund@),
                    Err(e) => expected == Err::<TransferView, Error>(e),
                }
            }),
            r is Err ==> final(self).model() == old(self).model(),
            r matches Ok(refund) ==> ({
                let before = old(self).model();
                let after = final(self).model();
                &&& before.order(order_id).status == OrderStatus::Pending
                &&& refund@ == (TransferView {
                    to: caller,
                    token: before.order(order_id).from_token,
                    amount: before.order(order_id).from_amount,
                })
                &&& after.orders == before.orders.update(
                    order_id - 1,
                    before.order(order_id).with_status(OrderStatus::Cancelled),
                )
                &&& after.pending_swaps == before.pending_swaps
            }),
    ;

    /// The pending orders, by identifier.
    fn get_pending_orders(&self) -> (r: Vec<LimitOrder>)
        requires
            self.inv(),
        ensures
            orders_view(r@) == self.model().pending_orders(),
    ;

    /// The orders that `user` placed, by identifier.
    fn get_user_orders(&self, user: Address) -> (r: Vec<LimitOrder>)
        requires
            self.inv(),
        ensures
            orders_view(r@) == self.model().user_orders(user),
    ;

    /// The order `order_id`, if there is one.
    fn get_order(&self, order_id: u64) -> (r: Option<LimitOrder>)
        requires
            self.inv(),
        ensures
            match r {
                Some(order) => self.model().has_order(order_id) && order@ == self.model().order(
                    order_id,
                ),
                None => !self.model().has_order(order_id),
            },
    ;

    /// Makes `executor` the one who may start executions. For the owner only.
    fn set_limit_order_executor(&mut self, caller: Address, executor: Address) -> (r: Result<
        (),
        Error,
    >)
        requires
            old(self).inv(),
        ensures
            final(self).inv(),
            final(self).model() == old(self).model().after_set_limit_order_executor(
                caller,
                executor,
            ),
            r == outcome(old(self).model().owner_failure(caller)),
    ;

    /// Sets the executor's share of a swap's output, in basis points. For the owner only.
    fn set_execution_fee_bps(&mut self, caller: Address, fee_bps: u64) -> (r: Result<(), Error>)
        requires
            old(self).inv(),
        ensures
            final(self).inv(),
            final(self).model() == old(self).model().after_set_execution_fee_bps(caller, fee_bps),
            r == outcome(old(self).model().fee_failure(caller, fee_bps)),
    ;

    /// Computes [`minimum_output`].
    fn calculate_min_output(
        &self,
        from_amount: &BigUint,
        target_price_num: &BigUint,
        target_price_denom: &BigUint,
        slippage_bp: u64,
    ) -> (r: BigUint)
        requires
            target_price_denom@ > 0,
            slippage_bp <= 10000,
        ensures
            r@ == minimum_output(
                from_amount@,
                target_price_num@,
                target_price_denom@,
                slippage_bp as nat,
            ),
    ;

    /// The identifier that the next order gets.
    fn next_order_id(&self) -> (r: u64)
        requires
            self.inv(),
        ensures
            r == self.model().orders.len() + 1,
    ;

    /// Who may start executions.
    fn limit_order_executor(&self) -> (r: Address)
        ensures
            r == self.model().limit_order_executor,
    ;
}

} // verus!
