//! What holds of the contract whatever is asked of it, in whatever order.

use crate::dex::{execution_fee, lemma_fee_at_most_output, swap_output, SwapResultView};
use crate::errors::Error;
use crate::events::EventView;
use crate::limit_orders::{LimitOrderView, OrderStatus};
use crate::model::{ContractModel, OrderRequest};
use crate::types::{Address, TransferView};
use vstd::prelude::*;

verus! {

/// One call to the contract.
pub enum Operation {
    CreateLimitOrder(OrderRequest),
    CancelLimitOrder { caller: Address, order_id: u64 },
    ExecuteLimitOrder {
        caller: Address,
        now: u64,
        order_id: u64,
        price_num: nat,
        price_denom: nat,
    },
    SwapCallback { now: u64, order_id: u64, result: SwapResultView },
    WhitelistToken { caller: Address, token: Seq<u8> },
    RemoveToken { caller: Address, token: Seq<u8> },
    SetPaused { caller: Address, paused: bool },
    SetMaxSlippage { caller: Address, max_slippage_bp: u64 },
    SetXexchangePair { caller: Address, pair: Address },
    SetLimitOrderExecutor { caller: Address, executor: Address },
    SetExecutionFeeBps { caller: Address, fee_bps: u64 },
    Emit(EventView),
    TakeEvents,
    Upgrade,
}

/// The amount of `token` that the pending orders among `orders` hold.
pub open spec fn escrowed(orders: Seq<LimitOrderView>, token: Seq<u8>) -> nat
    decreases orders.len(),
{
    if orders.len() == 0 {
        0
    } else {
        escrowed(orders.drop_last(), token) + held(orders.last(), token)
    }
}

/// The amount of `token` that `order` holds: what was handed over with it while it is
/// pending, nothing once it has ended.
pub open spec fn held(order: LimitOrderView, token: Seq<u8>) -> nat {
    if order.status == OrderStatus::Pending && order.from_token == token {
        order.from_amount
    } else {
        0
    }
}

impl ContractModel {
    /// The state after the call `op`.
    pub open spec fn apply(self, op: Operation) -> ContractModel {
        match op {
            Operation::CreateLimitOrder(request) => self.after_create(request),
            Operation::CancelLimitOrder { caller, order_id } => self.after_cancel(caller, order_id),
            Operation::ExecuteLimitOrder { caller, now, order_id, price_num, price_denom } => {
                self.after_execute(caller, now, order_id, price_num, price_denom)
            },
            Operation::SwapCallback { now, order_id, result } => self.after_callback(
                now,
                order_id,
                result,
            ),
            Operation::WhitelistToken { caller, token } => self.after_whitelist(caller, token),
            Operation::RemoveToken { caller, token } => self.after_remove(caller, token),
            Operation::SetPaused { caller, paused } => self.after_set_paused(caller, paused),
            Operation::SetMaxSlippage { caller, max_slippage_bp } => self.after_set_max_slippage(
                caller,
                max_slippage_bp,
            ),
            Operation::SetXexchangePair { caller, pair } => self.after_set_xexchange_pair(
                caller,
                pair,
            ),
            Operation::SetLimitOrderExecutor {
                caller,
                executor,
            } => self.after_set_limit_order_executor(caller, executor),
            Operation::SetExecutionFeeBps { caller, fee_bps } => self.after_set_execution_fee_bps(
                caller,
                fee_bps,
            ),
            Operation::Emit(event) => self.emit(event),
            Operation::TakeEvents => ContractModel { events: Seq::empty(), ..self },
            Operation::Upgrade => self,
        }
    }

    /// The state after the calls `ops`, one after the other.
    pub open spec fn run(self, ops: Seq<Operation>) -> ContractModel
        decreases ops.len(),
    {
        if ops.len() == 0 {
            self
        } else {
            self.run(ops.drop_last()).apply(ops.last())
        }
    }

    /// Whether `later` has every order of this state, on the same terms, and as it was if it
    /// had ended.
    pub open spec fn continued_by(self, later: ContractModel) -> bool {
        &&& self.orders.len() <= later.orders.len()
        &&& forall|i: int|
            0 <= i < self.orders.len() ==> (#[trigger] later.orders[i]).same_terms(self.orders[i])
        &&& forall|i: int|
            0 <= i < self.orders.len() && self.orders[i].status != OrderStatus::Pending ==> (
            #[trigger] later.orders[i]) == self.orders[i]
    }

    /// Whether no order of this state has the status `Expired`.
    pub open spec fn none_expired(self) -> bool {
        forall|i: int|
            0 <= i < self.orders.len() ==> (#[trigger] self.orders[i]).status
                != OrderStatus::Expired
    }

    /// Every call keeps a valid state valid.
    pub proof fn lemma_apply_valid(self, op: Operation)
        requires
            self.valid(),
        ensures
            self.apply(op).valid(),
    {
        match op {
            Operation::CreateLimitOrder(request) => self.lemma_create_valid(request),
            Operation::CancelLimitOrder { caller, order_id } => self.lemma_cancel_valid(
                caller,
                order_id,
            ),
            Operation::ExecuteLimitOrder { caller, now, order_id, price_num, price_denom } => {
                self.lemma_execute_valid(caller, now, order_id, price_num, price_denom)
            },
            Operation::SwapCallback { now, order_id, result } => self.lemma_callback_valid(
                now,
                order_id,
                result,
            ),
            Operation::WhitelistToken { caller, token } => self.lemma_whitelist_valid(
                caller,
                token,
            ),
            Operation::RemoveToken { caller, token } => self.lemma_remove_valid(caller, token),
            Operation::SetPaused { caller, paused } => {
                let set = ContractModel { paused, ..self };
                self.lemma_settings_valid(set);
                set.lemma_emit_valid(EventView::PauseStateChanged { paused });
            },
            Operation::Emit(event) => self.lemma_emit_valid(event),
            _ => self.lemma_settings_valid(self.apply(op)),
        }
    }

    /// Every state that the calls reach from a valid state is valid: order identifiers
    /// count up from one and are never used twice, every order keeps what an order must
    /// satisfy, and at most one swap is under way for an order, which exists.
    pub proof fn lemma_run_valid(self, ops: Seq<Operation>)
        requires
            self.valid(),
        ensures
            self.run(ops).valid(),
        decreases ops.len(),
    {
        if ops.len() > 0 {
            self.lemma_run_valid(ops.drop_last());
            self.run(ops.drop_last()).lemma_apply_valid(ops.last());
        }
    }

    /// No call changes the terms of an order, removes an order, or changes an order that has
    /// ended: the only change to an order is the one from `Pending` to `Executed` or to
    /// `Cancelled`.
    pub proof fn lemma_apply_continues(self, op: Operation)
        ensures
            self.continued_by(self.apply(op)),
            forall|i: int|
                0 <= i < self.orders.len() ==> (#[trigger] self.apply(op).orders[i]).status
                    == self.orders[i].status || (self.orders[i].status == OrderStatus::Pending && (
                self.apply(op).orders[i].status == OrderStatus::Executed || self.apply(
                    op,
                ).orders[i].status == OrderStatus::Cancelled)),
    {
    }

    /// What [`Self::lemma_apply_continues`] says of one call holds of any number of calls.
    pub proof fn lemma_run_continues(self, ops: Seq<Operation>)
        ensures
            self.continued_by(self.run(ops)),
        decreases ops.len(),
    {
        if ops.len() > 0 {
            self.lemma_run_continues(ops.drop_last());
            self.run(ops.drop_last()).lemma_apply_continues(ops.last());
        }
    }

    /// An order that passes the checks is created pending under the next identifier, with
    /// the amount handed over as its amount and with the expiry time `now +
    /// expires_in_seconds`; the orders before it are as they were; and what the pending
    /// orders hold grows by exactly that amount of the token handed over.
    pub proof fn lemma_create_escrows(self, request: OrderRequest, token: Seq<u8>)
        requires
            self.create_failure(request) is None,
        ensures
            ({
                let id = (self.orders.len() + 1) as u64;
                let after = self.after_create(request);
                &&& self.create_result(request) == Ok::<u64, Error>(id)
                &&& after.orders.len() == self.orders.len() + 1
                &&& after.orders.take(self.orders.len() as int) == self.orders
                &&& after.has_order(id)
                &&& after.order(id).order_id == id
                &&& after.order(id).user == request.caller
                &&& after.order(id).status == OrderStatus::Pending
                &&& after.order(id).from_token == request.from_token
                &&& after.order(id).from_amount == request.from_amount
                &&& after.order(id).created_at == request.now
                &&& after.order(id).expires_at == request.now + request.expires_in_seconds
                &&& escrowed(after.orders, token) == escrowed(self.orders, token) + (if token
                    == request.from_token {
                    request.from_amount
                } else {
                    0
                })
            }),
    {
        let after = self.after_create(request);
        assert(after.orders.drop_last() =~= self.orders);
        assert(after.orders.take(self.orders.len() as int) =~= self.orders);
    }

    /// A refused order changes nothing.
    pub proof fn lemma_create_refused(self, request: OrderRequest)
        requires
            self.create_failure(request) is Some,
        ensures
            self.create_result(request) is Err,
            self.after_create(request) == self,
    {
    }

    /// Cancelling an order of another user, or an order that is not pending, is refused and
    /// changes nothing; so is any cancellation that is refused.
    pub proof fn lemma_cancel_refused(self, caller: Address, order_id: u64)
        ensures
            self.has_order(order_id) && self.order(order_id).user != caller ==> self.cancel_result(
                caller,
                order_id,
            ) == Err::<TransferView, Error>(Error::NotOwner),
            self.has_order(order_id) && self.order(order_id).user == caller && self.order(
                order_id,
            ).status != OrderStatus::Pending ==> self.cancel_result(caller, order_id) == Err::<
                TransferView,
                Error,
            >(Error::InvalidState),
            !self.has_order(order_id) ==> self.cancel_result(caller, order_id) == Err::<
                TransferView,
                Error,
            >(Error::OrderNotFound),
            self.cancel_result(caller, order_id) is Err ==> self.after_cancel(caller, order_id)
                == self,
    {
    }

    /// Cancelling a pending order hands back to its user exactly what the order holds, ends
    /// the order, and lowers what the pending orders hold by exactly that amount.
    pub proof fn lemma_cancel_releases(self, caller: Address, order_id: u64, token: Seq<u8>)
        requires
            self.cancel_failure(caller, order_id) is None,
        ensures
            ({
                let order = self.order(order_id);
                let after = self.after_cancel(caller, order_id);
                &&& self.cancel_result(caller, order_id) == Ok::<TransferView, Error>(
                    TransferView { to: caller, token: order.from_token, amount: order.from_amount },
                )
                &&& after.order(order_id) == order.with_status(OrderStatus::Cancelled)
                &&& after.pending_swaps == self.pending_swaps
                &&& escrowed(self.orders, token) == escrowed(after.orders, token) + (if token
                    == order.from_token {
                    order.from_amount
                } else {
                    0
                })
            }),
    {
        lemma_escrow_released(self.orders, order_id - 1, OrderStatus::Cancelled, token);
    }

    /// Round trip: whatever is asked of the contract after an order is created, at whatever
    /// prices, cancelling the order while it is pending succeeds for its user and hands back
    /// exactly the amount that was handed over with it.
    pub proof fn lemma_cancel_returns_escrow(self, request: OrderRequest, ops: Seq<Operation>)
        requires
            self.create_failure(request) is None,
        ensures
            ({
                let id = (self.orders.len() + 1) as u64;
                let later = self.after_create(request).run(ops);
                let refund = TransferView {
                    to: request.caller,
                    token: request.from_token,
                    amount: request.from_amount,
                };
                &&& later.has_order(id)
                &&& later.order(id).status == OrderStatus::Pending ==> later.cancel_result(
                    request.caller,
                    id,
                ) == Ok::<TransferView, Error>(refund)
                &&& later.cancel_result(request.caller, id) is Ok ==> later.cancel_result(
                    request.caller,
                    id,
                ) == Ok::<TransferView, Error>(refund)
            }),
    {
        let created = self.after_create(request);
        let later = created.run(ops);
        created.lemma_run_continues(ops);
        let i = self.orders.len() as int;
        assert(later.orders[i].same_terms(created.orders[i]));
    }

    /// No call moves an order to `Expired`: that an order has run out shows only in the
    /// refusal to execute it.
    pub proof fn lemma_apply_expires_nothing(self, op: Operation)
        requires
            self.none_expired(),
        ensures
            self.apply(op).none_expired(),
    {
        let after = self.apply(op);
        self.lemma_apply_continues(op);
        assert forall|i: int| 0 <= i < after.orders.len() implies (
        #[trigger] after.orders[i]).status != OrderStatus::Expired by {
            if i < self.orders.len() {
                assert(self.orders[i].status != OrderStatus::Expired);
            }
        }
    }

    /// An execution after the order's expiry time is refused and changes nothing: the order
    /// stays pending. Where every earlier check passes, the reason given is the expiry. At
    /// the expiry time itself the order is not refused for it.
    pub proof fn lemma_expired_execution_refused(
        self,
        caller: Address,
        now: u64,
        order_id: u64,
        price_num: nat,
        price_denom: nat,
    )
        requires
            self.has_order(order_id),
        ensures
            now > self.order(order_id).expires_at ==> self.execute_result(
                caller,
                now,
                order_id,
                price_num,
                price_denom,
            ) is Err && self.after_execute(caller, now, order_id, price_num, price_denom) == self,
            now > self.order(order_id).expires_at && !self.paused && caller
                == self.limit_order_executor && self.order(order_id).status
                == OrderStatus::Pending ==> self.execute_result(
                caller,
                now,
                order_id,
                price_num,
                price_denom,
            ) == Err::<crate::dex::SwapRequestView, Error>(Error::Expired),
            now <= self.order(order_id).expires_at ==> self.execute_failure(
                caller,
                now,
                order_id,
                price_num,
                price_denom,
            ) != Some(Error::Expired),
    {
    }

    /// An order that has ended stays as it is, whatever is asked of the contract.
    pub proof fn lemma_ended_orders_stay(self, order_id: u64, ops: Seq<Operation>)
        requires
            self.has_order(order_id),
            self.order(order_id).status != OrderStatus::Pending,
        ensures
            self.run(ops).has_order(order_id),
            self.run(ops).order(order_id) == self.order(order_id),
    {
        self.lemma_run_continues(ops);
        assert(self.run(ops).orders[order_id - 1] == self.orders[order_id - 1]);
    }

    /// An execution at an observed price that is worse than the order's target price is
    /// refused and changes nothing: the order is as it was and no swap is noted as under
    /// way. Where every earlier check passes, the reason given is the price.
    pub proof fn lemma_worse_price_refused(
        self,
        caller: Address,
        now: u64,
        order_id: u64,
        price_num: nat,
        price_denom: nat,
    )
        requires
            self.has_order(order_id),
            price_num * self.order(order_id).target_price_denominator > self.order(
                order_id,
            ).target_price_numerator * price_denom,
        ensures
            self.execute_result(caller, now, order_id, price_num, price_denom) is Err,
            self.after_execute(caller, now, order_id, price_num, price_denom) == self,
            !self.paused && caller == self.limit_order_executor && self.order(order_id).status
                == OrderStatus::Pending && now <= self.order(order_id).expires_at
                ==> self.execute_result(caller, now, order_id, price_num, price_denom) == Err::<
                crate::dex::SwapRequestView,
                Error,
            >(Error::PriceConditionNotMet),
    {
    }

    /// An execution that passes the checks leaves every order as it was and notes one swap
    /// as under way for the order, with the order's minimum output as its guardrail; until
    /// its result comes in, a second execution of the order is refused.
    pub proof fn lemma_execute_dispatches(
        self,
        caller: Address,
        now: u64,
        order_id: u64,
        price_num: nat,
        price_denom: nat,
    )
        requires
            self.execute_failure(caller, now, order_id, price_num, price_denom) is None,
        ensures
            ({
                let after = self.after_execute(caller, now, order_id, price_num, price_denom);
                &&& after.orders == self.orders
                &&& after.order(order_id).status == OrderStatus::Pending
                &&& after.pending_swaps.contains_key(order_id)
                &&& after.pending_swaps[order_id].min_amount_out == self.order(
                    order_id,
                ).minimum_output()
                &&& self.execute_result(caller, now, order_id, price_num, price_denom)
                    matches Ok(request) && request.min_amount_out == self.order(
                    order_id,
                ).minimum_output() && request.from_amount == self.order(order_id).from_amount
                &&& forall|c: Address, t: u64, n: nat, d: nat|
                    (#[trigger] after.execute_failure(c, t, order_id, n, d)) is Some
            }),
    {
    }

    /// The result of a swap is taken in once: after it, whatever it was, no swap is under
    /// way for the order, and a second result for the order is refused for want of a swap.
    pub proof fn lemma_result_taken_once(
        self,
        now: u64,
        order_id: u64,
        result: SwapResultView,
        second: SwapResultView,
    )
        ensures
            !self.after_callback(now, order_id, result).pending_swaps.contains_key(order_id),
            self.after_callback(now, order_id, result).callback_failure(order_id, second) == Some(
                Error::ContextNotFound,
            ),
            self.callback_failure(order_id, result) == Some(Error::ContextNotFound)
                ==> self.after_callback(now, order_id, result) == self,
    {
    }

    /// A swap that went through with enough output, for an order that is still pending,
    /// executes the order: the executor gets the fee, the user the rest, the two together
    /// exactly the output; and what the pending orders hold is lowered by the order's amount.
    pub proof fn lemma_settlement_splits_output(
        self,
        now: u64,
        order_id: u64,
        result: SwapResultView,
        token: Seq<u8>,
    )
        requires
            self.valid(),
            self.callback_failure(order_id, result) is None,
        ensures
            ({
                let context = self.pending_swaps[order_id];
                let output = swap_output(result->Completed_0, context.to_token);
                let fee = execution_fee(output, self.execution_fee_bps as nat);
                let after = self.after_callback(now, order_id, result);
                &&& fee <= output
                &&& output >= self.order(order_id).minimum_output()
                &&& self.callback_result(order_id, result) matches Ok(settlement)
                    && settlement.user_payment == (TransferView {
                    to: self.order(order_id).user,
                    token: self.order(order_id).to_token,
                    amount: (output - fee) as nat,
                }) && settlement.executor_fee == (if fee > 0 {
                    Some(
                        TransferView {
                            to: context.executor,
                            token: self.order(order_id).to_token,
                            amount: fee,
                        },
                    )
                } else {
                    None
                })
                &&& after.order(order_id) == self.order(order_id).with_status(
                    OrderStatus::Executed,
                )
                &&& escrowed(self.orders, token) == escrowed(after.orders, token) + (if token
                    == self.order(order_id).from_token {
                    self.order(order_id).from_amount
                } else {
                    0
                })
            }),
    {
        let context = self.pending_swaps[order_id];
        assert(self.pending_swaps.contains_key(order_id));
        let output = swap_output(result->Completed_0, context.to_token);
        lemma_fee_at_most_output(output, self.execution_fee_bps as nat);
        lemma_escrow_released(self.orders, order_id - 1, OrderStatus::Executed, token);
    }

    /// A swap that failed, or that gave too little, leaves every order as it was (pending,
    /// if it was) and is no longer under way, so that the order can be executed anew: a
    /// later execution is refused only for a reason other than a swap under way, and where
    /// it is not refused it notes a fresh swap.
    pub proof fn lemma_failed_swap_permits_retry(
        self,
        now: u64,
        order_id: u64,
        result: SwapResultView,
        caller: Address,
        later: u64,
        price_num: nat,
        price_denom: nat,
    )
        requires
            self.pending_swaps.contains_key(order_id),
            self.callback_failure(order_id, result) is Some,
        ensures
            ({
                let after = self.after_callback(now, order_id, result);
                &&& result is Failed ==> self.callback_result(order_id, result) == Err::<
                    crate::dex::SettlementView,
                    Error,
                >(Error::SwapFailed)
                &&& after.orders == self.orders
                &&& after.events == self.events
                &&& !after.pending_swaps.contains_key(order_id)
                &&& after.execute_failure(caller, later, order_id, price_num, price_denom) != Some(
                    Error::DuplicateExecution,
                )
                &&& after.execute_failure(caller, later, order_id, price_num, price_denom)
                    is None <==> {
                    &&& !self.paused
                    &&& caller == self.limit_order_executor
                    &&& self.has_order(order_id)
                    &&& self.order(order_id).status == OrderStatus::Pending
                    &&& later <= self.order(order_id).expires_at
                    &&& self.order(order_id).price_met(price_num, price_denom)
                    &&& self.xexchange_pair is Some
                }
                &&& after.execute_failure(caller, later, order_id, price_num, price_denom)
                    is None ==> after.after_execute(
                    caller,
                    later,
                    order_id,
                    price_num,
                    price_denom,
                ).pending_swaps[order_id] == after.context_for(order_id, caller)
            }),
    {
    }
}

/// When a pending order ends, what the pending orders hold is lowered by exactly its amount.
pub proof fn lemma_escrow_released(
    orders: Seq<LimitOrderView>,
    i: int,
    status: OrderStatus,
    token: Seq<u8>,
)
    requires
        0 <= i < orders.len(),
        orders[i].status == OrderStatus::Pending,
        status != OrderStatus::Pending,
    ensures
        escrowed(orders, token) == escrowed(
            orders.update(i, orders[i].with_status(status)),
            token,
        ) + (if token == orders[i].from_token {
            orders[i].from_amount
        } else {
            0
        }),
    decreases orders.len(),
{
    let changed = orders.update(i, orders[i].with_status(status));
    if i == orders.len() - 1 {
        assert(changed.drop_last() =~= orders.drop_last());
    } else {
        assert(changed.drop_last() =~= orders.drop_last().update(
            i,
            orders.drop_last()[i].with_status(status),
        ));
        lemma_escrow_released(orders.drop_last(), i, status, token);
    }
}

} // verus!
