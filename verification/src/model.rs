//! The contract as a mathematical state, and each operation as a function on it.
//!
//! Every executable operation is specified as one of the transitions below, so what holds of
//! the transitions holds of the contract.

use crate::dex::{
    execution_fee, swap_output, SettlementView, SwapRequestView, SwapResultView,
};
use crate::errors::Error;
use crate::events::EventView;
use crate::limit_orders::{LimitOrderView, OrderStatus};
use crate::storage::SwapExecutionContextView;
use crate::types::{Address, TransferView};
use vstd::prelude::*;

verus! {

/// The highest execution fee that can be set, in basis points.
pub const MAX_EXECUTION_FEE_BPS: u64 = 500;

/// The execution fee of a new contract, in basis points.
pub const DEFAULT_EXECUTION_FEE_BPS: u64 = 10;

/// All that the contract remembers.
pub struct ContractModel {
    pub owner: Address,
    pub paused: bool,
    pub max_slippage: u64,
    pub execution_fee_bps: u64,
    pub xexchange_pair: Option<Address>,
    pub whitelisted_tokens: Seq<Seq<u8>>,
    pub limit_order_executor: Address,
    /// The orders by identifier: the order `id` is at position `id - 1`.
    pub orders: Seq<LimitOrderView>,
    /// The swaps under way, by order identifier.
    pub pending_swaps: Map<u64, SwapExecutionContextView>,
    pub events: Seq<EventView>,
}

/// The terms of a new order, with who asks for it and when.
pub struct OrderRequest {
    pub caller: Address,
    pub now: u64,
    pub from_token: Seq<u8>,
    pub from_amount: nat,
    pub to_token: Seq<u8>,
    pub target_price_num: nat,
    pub target_price_denom: nat,
    pub slippage_bp: u64,
    pub expires_in_seconds: u64,
}

/// `tokens` without the later occurrences of a token that occurs before.
pub open spec fn first_occurrences(tokens: Seq<Seq<u8>>) -> Seq<Seq<u8>>
    decreases tokens.len(),
{
    if tokens.len() == 0 {
        Seq::empty()
    } else {
        let before = first_occurrences(tokens.drop_last());
        if before.contains(tokens.last()) {
            before
        } else {
            before.push(tokens.last())
        }
    }
}

/// `tokens` with the last one moved to position `i`, and one shorter.
pub open spec fn swap_removed(tokens: Seq<Seq<u8>>, i: int) -> Seq<Seq<u8>> {
    tokens.update(i, tokens.last()).drop_last()
}

impl ContractModel {
    /// Whether an order has the identifier `order_id`.
    pub open spec fn has_order(self, order_id: u64) -> bool {
        1 <= order_id <= self.orders.len()
    }

    /// The order with the identifier `order_id`.
    pub open spec fn order(self, order_id: u64) -> LimitOrderView {
        self.orders[order_id - 1]
    }

    /// The state with `order_id` in the status `status`.
    pub open spec fn with_order_status(self, order_id: u64, status: OrderStatus) -> ContractModel {
        ContractModel {
            orders: self.orders.update(order_id - 1, self.order(order_id).with_status(status)),
            ..self
        }
    }

    /// The state with one more event.
    pub open spec fn emit(self, event: EventView) -> ContractModel {
        ContractModel { events: self.events.push(event), ..self }
    }

    /// Whether the swap noted for the order `order_id` is for an order that exists, and is
    /// as that order has it.
    pub open spec fn context_fits(self, order_id: u64) -> bool {
        self.has_order(order_id) && self.pending_swaps[order_id] == self.context_for(
            order_id,
            self.pending_swaps[order_id].executor,
        )
    }

    /// What holds of every state that the operations reach.
    pub open spec fn valid(self) -> bool {
        &&& self.orders.len() < u64::MAX
        &&& forall|i: int|
            0 <= i < self.orders.len() ==> (#[trigger] self.orders[i]).order_id == i + 1
        &&& forall|i: int| 0 <= i < self.orders.len() ==> (#[trigger] self.orders[i]).well_formed()
        &&& forall|k: u64| #[trigger] self.pending_swaps.contains_key(k) ==> self.context_fits(k)
        &&& self.whitelisted_tokens.no_duplicates()
        &&& self.execution_fee_bps <= MAX_EXECUTION_FEE_BPS
    }

    // ----- a new contract -----
    /// The state of a new contract.
    pub open spec fn initial(
        caller: Address,
        max_slippage_bp: u64,
        initial_tokens: Seq<Seq<u8>>,
    ) -> ContractModel {
        ContractModel {
            owner: caller,
            paused: false,
            max_slippage: max_slippage_bp,
            execution_fee_bps: DEFAULT_EXECUTION_FEE_BPS,
            xexchange_pair: None,
            whitelisted_tokens: first_occurrences(initial_tokens),
            limit_order_executor: caller,
            orders: Seq::empty(),
            pending_swaps: Map::empty(),
            events: Seq::empty(),
        }
    }

    // ----- administration -----
    /// Why `caller` may not whitelist `token`, if so.
    pub open spec fn whitelist_failure(self, caller: Address, token: Seq<u8>) -> Option<Error> {
        if caller != self.owner {
            Some(Error::NotContractOwner)
        } else if self.whitelisted_tokens.contains(token) {
            Some(Error::AlreadyWhitelisted)
        } else {
            None
        }
    }

    /// The state after `caller` asked to whitelist `token`.
    pub open spec fn after_whitelist(self, caller: Address, token: Seq<u8>) -> ContractModel {
        if self.whitelist_failure(caller, token) is Some {
            self
        } else {
            ContractModel { whitelisted_tokens: self.whitelisted_tokens.push(token), ..self }.emit(
                EventView::TokenWhitelisted { token },
            )
        }
    }

    /// Why `caller` may not take `token` off the whitelist, if so.
    pub open spec fn remove_failure(self, caller: Address, token: Seq<u8>) -> Option<Error> {
        if caller != self.owner {
            Some(Error::NotContractOwner)
        } else if !self.whitelisted_tokens.contains(token) {
            Some(Error::NotWhitelisted)
        } else {
            None
        }
    }

    /// The state after `caller` asked to take `token` off the whitelist: the last token of the
    /// list takes its place.
    pub open spec fn after_remove(self, caller: Address, token: Seq<u8>) -> ContractModel {
        if self.remove_failure(caller, token) is Some {
            self
        } else {
            ContractModel {
                whitelisted_tokens: swap_removed(
                    self.whitelisted_tokens,
                    self.whitelisted_tokens.index_of(token),
                ),
                ..self
            }.emit(EventView::TokenRemoved { token })
        }
    }

    /// Why `caller` may not change the settings, if so.
    pub open spec fn owner_failure(self, caller: Address) -> Option<Error> {
        if caller != self.owner {
            Some(Error::NotContractOwner)
        } else {
            None
        }
    }

    /// The state after `caller` asked to pause or resume the contract.
    pub open spec fn after_set_paused(self, caller: Address, paused: bool) -> ContractModel {
        if self.owner_failure(caller) is Some {
            self
        } else {
            ContractModel { paused, ..self }.emit(EventView::PauseStateChanged { paused })
        }
    }

    /// The state after `caller` asked for another greatest slippage tolerance.
    pub open spec fn after_set_max_slippage(
        self,
        caller: Address,
        max_slippage_bp: u64,
    ) -> ContractModel {
        if self.owner_failure(caller) is Some {
            self
        } else {
            ContractModel { max_slippage: max_slippage_bp, ..self }
        }
    }

    /// The state after `caller` asked for another swap pair.
    pub open spec fn after_set_xexchange_pair(
        self,
        caller: Address,
        pair: Address,
    ) -> ContractModel {
        if self.owner_failure(caller) is Some {
            self
        } else {
            ContractModel { xexchange_pair: Some(pair), ..self }
        }
    }

    /// The state after `caller` asked for another executor.
    pub open spec fn after_set_limit_order_executor(
        self,
        caller: Address,
        executor: Address,
    ) -> ContractModel {
        if self.owner_failure(caller) is Some {
            self
        } else {
            ContractModel { limit_order_executor: executor, ..self }
        }
    }

    /// Why `caller` may not set the execution fee to `fee_bps`, if so.
    pub open spec fn fee_failure(self, caller: Address, fee_bps: u64) -> Option<Error> {
        if caller != self.owner {
            Some(Error::NotContractOwner)
        } else if fee_bps > MAX_EXECUTION_FEE_BPS {
            Some(Error::FeeTooHigh)
        } else {
            None
        }
    }

    /// The state after `caller` asked for the execution fee `fee_bps`.
    pub open spec fn after_set_execution_fee_bps(
        self,
        caller: Address,
        fee_bps: u64,
    ) -> ContractModel {
        if self.fee_failure(caller, fee_bps) is Some {
            self
        } else {
            ContractModel { execution_fee_bps: fee_bps, ..self }
        }
    }

    // ----- creating an order -----
    /// Why the order asked for is refused, if so: the first of the checks that fails.
    pub open spec fn create_failure(self, request: OrderRequest) -> Option<Error> {
        if self.paused {
            Some(Error::Paused)
        } else if !self.whitelisted_tokens.contains(request.from_token) {
            Some(Error::FromTokenNotWhitelisted)
        } else if !self.whitelisted_tokens.contains(request.to_token) {
            Some(Error::ToTokenNotWhitelisted)
        } else if request.from_token == request.to_token {
            Some(Error::SameToken)
        } else if request.from_amount == 0 {
            Some(Error::InvalidAmount)
        } else if request.target_price_num == 0 {
            Some(Error::InvalidPriceNumerator)
        } else if request.target_price_denom == 0 {
            Some(Error::InvalidPriceDenominator)
        } else if request.slippage_bp > self.max_slippage || request.slippage_bp > 10000 {
            Some(Error::SlippageTooHigh)
        } else if request.now + request.expires_in_seconds > u64::MAX {
            Some(Error::ExpiryOverflow)
        } else if self.orders.len() + 1 >= u64::MAX {
            Some(Error::OrderIdsExhausted)
        } else {
            None
        }
    }

    /// The order that `request` creates: pending, under the next identifier.
    pub open spec fn new_order(self, request: OrderRequest) -> LimitOrderView {
        LimitOrderView {
            order_id: (self.orders.len() + 1) as u64,
            user: request.caller,
            from_token: request.from_token,
            from_amount: request.from_amount,
            to_token: request.to_token,
            target_price_numerator: request.target_price_num,
            target_price_denominator: request.target_price_denom,
            slippage_bp: request.slippage_bp,
            expires_at: (request.now + request.expires_in_seconds) as u64,
            status: OrderStatus::Pending,
            created_at: request.now,
        }
    }

    /// The event that tells of the order `order`.
    pub open spec fn created_event(order: LimitOrderView) -> EventView {
        EventView::LimitOrderCreated {
            order_id: order.order_id,
            user: order.user,
            from_token: order.from_token,
            from_amount: order.from_amount,
            to_token: order.to_token,
            target_price_num: order.target_price_numerator,
            target_price_denom: order.target_price_denominator,
            expires_at: order.expires_at,
        }
    }

    /// The state after `request`.
    pub open spec fn after_create(self, request: OrderRequest) -> ContractModel {
        if self.create_failure(request) is Some {
            self
        } else {
            ContractModel { orders: self.orders.push(self.new_order(request)), ..self }.emit(
                Self::created_event(self.new_order(request)),
            )
        }
    }

    /// What `request` returns: the new order's identifier.
    pub open spec fn create_result(self, request: OrderRequest) -> Result<u64, Error> {
        match self.create_failure(request) {
            Some(e) => Err(e),
            None => Ok(self.new_order(request).order_id),
        }
    }

    // ----- cancelling an order -----
    /// Why `caller` may not cancel the order `order_id`, if so.
    pub open spec fn cancel_failure(self, caller: Address, order_id: u64) -> Option<Error> {
        if !self.has_order(order_id) {
            Some(Error::OrderNotFound)
        } else if self.order(order_id).user != caller {
            Some(Error::NotOwner)
        } else if self.order(order_id).status != OrderStatus::Pending {
            Some(Error::InvalidState)
        } else {
            None
        }
    }

    /// What is handed back when the order `order_id` is cancelled: all that it holds.
    pub open spec fn refund(self, order_id: u64) -> TransferView {
        TransferView {
            to: self.order(order_id).user,
            token: self.order(order_id).from_token,
            amount: self.order(order_id).from_amount,
        }
    }

    /// The state after `caller` asked to cancel the order `order_id`. A swap under way for
    /// the order stays under way.
    pub open spec fn after_cancel(self, caller: Address, order_id: u64) -> ContractModel {
        if self.cancel_failure(caller, order_id) is Some {
            self
        } else {
            self.with_order_status(order_id, OrderStatus::Cancelled).emit(
                EventView::LimitOrderCancelled {
                    order_id,
                    user: self.order(order_id).user,
                    token: self.order(order_id).from_token,
                    amount: self.order(order_id).from_amount,
                },
            )
        }
    }

    /// What `caller`'s request to cancel the order `order_id` returns.
    pub open spec fn cancel_result(self, caller: Address, order_id: u64) -> Result<
        TransferView,
        Error,
    > {
        match self.cancel_failure(caller, order_id) {
            Some(e) => Err(e),
            None => Ok(self.refund(order_id)),
        }
    }

    // ----- starting an execution -----
    /// Why the order `order_id` is not executed at the observed price
    /// `price_num / price_denom`, if so: the first of the checks that fails.
    pub open spec fn execute_failure(
        self,
        caller: Address,
        now: u64,
        order_id: u64,
        price_num: nat,
        price_denom: nat,
    ) -> Option<Error> {
        if self.paused {
            Some(Error::Paused)
        } else if caller != self.limit_order_executor {
            Some(Error::NotExecutor)
        } else if !self.has_order(order_id) {
            Some(Error::OrderNotFound)
        } else if self.order(order_id).status != OrderStatus::Pending {
            Some(Error::InvalidState)
        } else if now > self.order(order_id).expires_at {
            Some(Error::Expired)
        } else if !self.order(order_id).price_met(price_num, price_denom) {
            Some(Error::PriceConditionNotMet)
        } else if self.pending_swaps.contains_key(order_id) {
            Some(Error::DuplicateExecution)
        } else if self.xexchange_pair is None {
            Some(Error::PairNotSet)
        } else {
            None
        }
    }

    /// What is kept of a swap for the order `order_id` that `executor` started.
    pub open spec fn context_for(
        self,
        order_id: u64,
        executor: Address,
    ) -> SwapExecutionContextView {
        SwapExecutionContextView {
            order_id,
            user: self.order(order_id).user,
            executor,
            to_token: self.order(order_id).to_token,
            min_amount_out: self.order(order_id).minimum_output(),
        }
    }

    /// The swap to send for the order `order_id`.
    pub open spec fn swap_request(self, order_id: u64) -> SwapRequestView {
        SwapRequestView {
            order_id,
            pair: self.xexchange_pair.unwrap(),
            from_token: self.order(order_id).from_token,
            from_amount: self.order(order_id).from_amount,
            to_token: self.order(order_id).to_token,
            min_amount_out: self.order(order_id).minimum_output(),
            gas_limit: crate::dex::SWAP_GAS_LIMIT,
            callback_gas: crate::dex::SWAP_CALLBACK_GAS,
        }
    }

    /// The state after `caller` asked to execute the order `order_id`: the order is as it
    /// was, and the swap is noted as under way.
    pub open spec fn after_execute(
        self,
        caller: Address,
        now: u64,
        order_id: u64,
        price_num: nat,
        price_denom: nat,
    ) -> ContractModel {
        if self.execute_failure(caller, now, order_id, price_num, price_denom) is Some {
            self
        } else {
            ContractModel {
                pending_swaps: self.pending_swaps.insert(
                    order_id,
                    self.context_for(order_id, caller),
                ),
                ..self
            }
        }
    }

    /// What `caller`'s request to execute the order `order_id` returns.
    pub open spec fn execute_result(
        self,
        caller: Address,
        now: u64,
        order_id: u64,
        price_num: nat,
        price_denom: nat,
    ) -> Result<SwapRequestView, Error> {
        match self.execute_failure(caller, now, order_id, price_num, price_denom) {
            Some(e) => Err(e),
            None => Ok(self.swap_request(order_id)),
        }
    }

    // ----- the result of a swap -----
    /// Why the result of the swap for the order `order_id` settles nothing, if so.
    ///
    /// An order that was cancelled while its swap was under way is not executed: the result
    /// is refused with `InvalidState`.
    pub open spec fn callback_failure(self, order_id: u64, result: SwapResultView) -> Option<
        Error,
    > {
        if !self.pending_swaps.contains_key(order_id) {
            Some(Error::ContextNotFound)
        } else {
            match result {
                SwapResultView::Failed(_) => Some(Error::SwapFailed),
                SwapResultView::Completed(payments) => {
                    let context = self.pending_swaps[order_id];
                    if swap_output(payments, context.to_token) < context.min_amount_out {
                        Some(Error::SlippageViolation)
                    } else if !self.has_order(order_id) || self.order(order_id).status
                        != OrderStatus::Pending {
                        Some(Error::InvalidState)
                    } else {
                        None
                    }
                },
            }
        }
    }

    /// How the output `output` of the swap for the order `order_id` is handed out.
    pub open spec fn settlement(self, order_id: u64, output: nat) -> SettlementView {
        let context = self.pending_swaps[order_id];
        let fee = execution_fee(output, self.execution_fee_bps as nat);
        SettlementView {
            executor_fee: if fee > 0 {
                Some(TransferView { to: context.executor, token: context.to_token, amount: fee })
            } else {
                None
            },
            user_payment: TransferView {
                to: context.user,
                token: context.to_token,
                amount: (output - fee) as nat,
            },
        }
    }

    /// The state after the result of the swap for the order `order_id` came in at the time
    /// `now`. Where a swap was under way it no longer is, whatever the result; the order is
    /// executed where nothing fails, and is as it was otherwise.
    pub open spec fn after_callback(
        self,
        now: u64,
        order_id: u64,
        result: SwapResultView,
    ) -> ContractModel {
        match self.callback_failure(order_id, result) {
            Some(Error::ContextNotFound) => self,
            Some(_) => ContractModel { pending_swaps: self.pending_swaps.remove(order_id), ..self },
            None => {
                let context = self.pending_swaps[order_id];
                let output = swap_output(result->Completed_0, context.to_token);
                let fee = execution_fee(output, self.execution_fee_bps as nat);
                ContractModel {
                    pending_swaps: self.pending_swaps.remove(order_id),
                    ..self
                }.with_order_status(order_id, OrderStatus::Executed).emit(
                    EventView::LimitOrderExecuted {
                        order_id,
                        user: context.user,
                        from_token: self.order(order_id).from_token,
                        from_amount: self.order(order_id).from_amount,
                        to_token: context.to_token,
                        to_amount: (output - fee) as nat,
                        timestamp: now,
                    },
                )
            },
        }
    }

    /// What the result of the swap for the order `order_id` returns.
    pub open spec fn callback_result(self, order_id: u64, result: SwapResultView) -> Result<
        SettlementView,
        Error,
    > {
        match self.callback_failure(order_id, result) {
            Some(e) => Err(e),
            None => Ok(
                self.settlement(
                    order_id,
                    swap_output(result->Completed_0, self.pending_swaps[order_id].to_token),
                ),
            ),
        }
    }

    // ----- queries -----
    /// The pending orders, by identifier.
    pub open spec fn pending_orders(self) -> Seq<LimitOrderView> {
        self.orders.filter(|o: LimitOrderView| o.status == OrderStatus::Pending)
    }

    /// The orders that `user` placed, by identifier.
    pub open spec fn user_orders(self, user: Address) -> Seq<LimitOrderView> {
        self.orders.filter(|o: LimitOrderView| o.user == user)
    }
}

/// No token occurs twice among the first occurrences.
pub proof fn lemma_first_occurrences(tokens: Seq<Seq<u8>>)
    ensures
        first_occurrences(tokens).no_duplicates(),
        forall|t: Seq<u8>|
            #![trigger first_occurrences(tokens).contains(t)]
            #![trigger tokens.contains(t)]
            first_occurrences(tokens).contains(t) <==> tokens.contains(t),
    decreases tokens.len(),
{
    if tokens.len() > 0 {
        let rest = tokens.drop_last();
        let before = first_occurrences(rest);
        lemma_first_occurrences(rest);
        assert forall|t: Seq<u8>|
            #![trigger first_occurrences(tokens).contains(t)]
            #![trigger tokens.contains(t)]
            first_occurrences(tokens).contains(t) <==> tokens.contains(t) by {
            if tokens.contains(t) {
                let i = choose|i: int| 0 <= i < tokens.len() && tokens[i] == t;
                if i < rest.len() {
                    assert(rest[i] == t);
                    assert(rest.contains(t));
                    let j = choose|j: int| 0 <= j < before.len() && before[j] == t;
                    assert(first_occurrences(tokens)[j] == t);
                } else {
                    assert(t == tokens.last());
                    if !before.contains(t) {
                        assert(first_occurrences(tokens)[before.len() as int] == t);
                    }
                }
            }
            if first_occurrences(tokens).contains(t) {
                let j = choose|j: int|
                    0 <= j < first_occurrences(tokens).len() && first_occurrences(tokens)[j] == t;
                if j < before.len() {
                    assert(before[j] == t);
                    assert(before.contains(t));
                    let i = choose|i: int| 0 <= i < rest.len() && rest[i] == t;
                    assert(tokens[i] == t);
                } else {
                    assert(tokens[tokens.len() - 1] == t);
                }
            }
        }
    }
}

/// Taking one token out of a list without repeats leaves a list without repeats, made of
/// the other tokens.
pub proof fn lemma_swap_removed(tokens: Seq<Seq<u8>>, i: int)
    requires
        tokens.no_duplicates(),
        0 <= i < tokens.len(),
    ensures
        swap_removed(tokens, i).no_duplicates(),
        forall|t: Seq<u8>|
            #![trigger swap_removed(tokens, i).contains(t)]
            #![trigger tokens.contains(t)]
            swap_removed(tokens, i).contains(t) <==> tokens.contains(t) && t != tokens[i],
{
    let after = swap_removed(tokens, i);
    let last = tokens.len() - 1;
    assert forall|t: Seq<u8>|
        #![trigger after.contains(t)]
        #![trigger tokens.contains(t)]
        after.contains(t) <==> tokens.contains(t) && t != tokens[i] by {
        if after.contains(t) {
            let j = choose|j: int| 0 <= j < after.len() && after[j] == t;
            if j == i {
                assert(tokens[last] == t);
            } else {
                assert(tokens[j] == t);
            }
        }
        if tokens.contains(t) && t != tokens[i] {
            let j = choose|j: int| 0 <= j < tokens.len() && tokens[j] == t;
            if j == last {
                assert(after[i] == t);
            } else {
                assert(after[j] == t);
            }
        }
    }
}

impl ContractModel {
    /// A new contract is in a valid state.
    pub proof fn lemma_initial_valid(
        caller: Address,
        max_slippage_bp: u64,
        initial_tokens: Seq<Seq<u8>>,
    )
        ensures
            Self::initial(caller, max_slippage_bp, initial_tokens).valid(),
    {
        lemma_first_occurrences(initial_tokens);
    }

    /// The event log plays no part in validity.
    pub proof fn lemma_emit_valid(self, event: EventView)
        requires
            self.valid(),
        ensures
            self.emit(event).valid(),
    {
        let after = self.emit(event);
        assert forall|k: u64| #[trigger] after.pending_swaps.contains_key(k) implies
            after.context_fits(k) by {
            assert(self.pending_swaps.contains_key(k));
        }
    }

    /// A change of status keeps the state valid.
    pub proof fn lemma_status_valid(self, order_id: u64, status: OrderStatus)
        requires
            self.valid(),
            self.has_order(order_id),
        ensures
            self.with_order_status(order_id, status).valid(),
    {
        let after = self.with_order_status(order_id, status);
        assert forall|k: u64| #[trigger] after.pending_swaps.contains_key(k) implies
            after.context_fits(k) by {
            assert(self.pending_swaps.contains_key(k));
        }
    }

    /// A state stays valid when a swap is no longer under way.
    pub proof fn lemma_context_removed_valid(self, order_id: u64)
        requires
            self.valid(),
        ensures
            (ContractModel { pending_swaps: self.pending_swaps.remove(order_id), ..self }).valid(),
    {
        let after = ContractModel { pending_swaps: self.pending_swaps.remove(order_id), ..self };
        assert forall|k: u64| #[trigger] after.pending_swaps.contains_key(k) implies
            after.context_fits(k) by {
            assert(self.pending_swaps.contains_key(k));
        }
    }

    /// A state stays valid when an order that passes the checks is added.
    pub proof fn lemma_order_added_valid(self, request: OrderRequest)
        requires
            self.valid(),
            self.create_failure(request) is None,
        ensures
            (ContractModel { orders: self.orders.push(self.new_order(request)), ..self }).valid(),
    {
        let order = self.new_order(request);
        let grown = ContractModel { orders: self.orders.push(order), ..self };
        assert forall|k: u64| #[trigger] grown.pending_swaps.contains_key(k) implies
            grown.context_fits(k) by {
            assert(self.pending_swaps.contains_key(k));
            assert(grown.order(k) == self.order(k));
        }
    }

    /// Creating an order keeps the state valid.
    pub proof fn lemma_create_valid(self, request: OrderRequest)
        requires
            self.valid(),
        ensures
            self.after_create(request).valid(),
    {
        if self.create_failure(request) is None {
            let order = self.new_order(request);
            let grown = ContractModel { orders: self.orders.push(order), ..self };
            self.lemma_order_added_valid(request);
            grown.lemma_emit_valid(Self::created_event(order));
        }
    }

    /// Cancelling an order keeps the state valid.
    pub proof fn lemma_cancel_valid(self, caller: Address, order_id: u64)
        requires
            self.valid(),
        ensures
            self.after_cancel(caller, order_id).valid(),
    {
        if self.cancel_failure(caller, order_id) is None {
            self.lemma_status_valid(order_id, OrderStatus::Cancelled);
            self.with_order_status(order_id, OrderStatus::Cancelled).lemma_emit_valid(
                EventView::LimitOrderCancelled {
                    order_id,
                    user: self.order(order_id).user,
                    token: self.order(order_id).from_token,
                    amount: self.order(order_id).from_amount,
                },
            );
        }
    }

    /// Starting an execution keeps the state valid.
    pub proof fn lemma_execute_valid(
        self,
        caller: Address,
        now: u64,
        order_id: u64,
        price_num: nat,
        price_denom: nat,
    )
        requires
            self.valid(),
        ensures
            self.after_execute(caller, now, order_id, price_num, price_denom).valid(),
    {
        let after = self.after_execute(caller, now, order_id, price_num, price_denom);
        assert forall|k: u64| #[trigger] after.pending_swaps.contains_key(k) implies
            after.context_fits(k) by {
            if k != order_id || self.execute_failure(caller, now, order_id, price_num, price_denom)
                is Some {
                assert(self.pending_swaps.contains_key(k));
            }
        }
    }

    /// The result of a swap keeps the state valid.
    pub proof fn lemma_callback_valid(self, now: u64, order_id: u64, result: SwapResultView)
        requires
            self.valid(),
        ensures
            self.after_callback(now, order_id, result).valid(),
    {
        let cleared = ContractModel { pending_swaps: self.pending_swaps.remove(order_id), ..self };
        self.lemma_context_removed_valid(order_id);
        if self.callback_failure(order_id, result) is None {
            cleared.lemma_status_valid(order_id, OrderStatus::Executed);
            let context = self.pending_swaps[order_id];
            let output = swap_output(result->Completed_0, context.to_token);
            let fee = execution_fee(output, self.execution_fee_bps as nat);
            cleared.with_order_status(order_id, OrderStatus::Executed).lemma_emit_valid(
                EventView::LimitOrderExecuted {
                    order_id,
                    user: context.user,
                    from_token: self.order(order_id).from_token,
                    from_amount: self.order(order_id).from_amount,
                    to_token: context.to_token,
                    to_amount: (output - fee) as nat,
                    timestamp: now,
                },
            );
        }
    }

    /// A state stays valid when only its settings change, the whitelist staying without
    /// repeats and the fee under its cap.
    pub proof fn lemma_settings_valid(self, after: ContractModel)
        requires
            self.valid(),
            after.orders == self.orders,
            after.pending_swaps == self.pending_swaps,
            after.whitelisted_tokens.no_duplicates(),
            after.execution_fee_bps <= MAX_EXECUTION_FEE_BPS,
        ensures
            after.valid(),
    {
        assert forall|k: u64| #[trigger] after.pending_swaps.contains_key(k) implies
            after.context_fits(k) by {
            assert(self.pending_swaps.contains_key(k));
        }
    }

    /// Whitelisting a token keeps the state valid.
    pub proof fn lemma_whitelist_valid(self, caller: Address, token: Seq<u8>)
        requires
            self.valid(),
        ensures
            self.after_whitelist(caller, token).valid(),
    {
        if self.whitelist_failure(caller, token) is None {
            let grown = ContractModel {
                whitelisted_tokens: self.whitelisted_tokens.push(token),
                ..self
            };
            self.lemma_settings_valid(grown);
            grown.lemma_emit_valid(EventView::TokenWhitelisted { token });
        }
    }

    /// Taking a token off the whitelist keeps the state valid.
    pub proof fn lemma_remove_valid(self, caller: Address, token: Seq<u8>)
        requires
            self.valid(),
        ensures
            self.after_remove(caller, token).valid(),
    {
        if self.remove_failure(caller, token) is None {
            let i = self.whitelisted_tokens.index_of(token);
            lemma_swap_removed(self.whitelisted_tokens, i);
            let shrunk = ContractModel {
                whitelisted_tokens: swap_removed(self.whitelisted_tokens, i),
                ..self
            };
            self.lemma_settings_valid(shrunk);
            shrunk.lemma_emit_valid(EventView::TokenRemoved { token });
        }
    }
}

} // verus!
