//! The contract: its state in memory and its operations.

use crate::biguint::BigUint;
use crate::dex::{
    find_swap_output, lemma_fee_at_most_output, DexModule, Settlement, SwapRequest, SwapResult,
    SWAP_CALLBACK_GAS, SWAP_GAS_LIMIT,
};
use crate::errors::{outcome, Error};
use crate::events::{events_view, Event, EventView, EventsModule};
use crate::ledger::{orders_view, OrderLedger};
use crate::limit_orders::{
    calculate_min_output, LimitOrder, LimitOrderView, LimitOrdersModule, OrderStatus,
    BASIS_POINTS,
};
use crate::model::{
    first_occurrences, lemma_swap_removed, swap_removed, ContractModel, OrderRequest,
    DEFAULT_EXECUTION_FEE_BPS, MAX_EXECUTION_FEE_BPS,
};
use crate::storage::{
    contexts_map, contexts_view, distinct_orders, lemma_contexts_map, ExecutionContextStore,
    Snapshot, StorageModule, SwapExecutionContext, SwapExecutionContextView,
};
use crate::types::{tokens_view, Address, TokenIdentifier, Transfer};
use vstd::prelude::*;

verus! {

/// What every part of the contract rests on: the state that it stands for, and what holds of
/// it between calls.
pub trait ContractBase {
    /// The state that the contract stands for.
    spec fn model(&self) -> ContractModel;

    /// What holds of the contract between calls.
    spec fn inv(&self) -> bool;

    /// Between calls the state is valid.
    proof fn lemma_valid(&self)
        requires
            self.inv(),
        ensures
            self.model().valid(),
    ;
}

/// The contract, held in memory.
pub struct Contract {
    owner: Address,
    paused: bool,
    max_slippage: u64,
    execution_fee_bps: u64,
    xexchange_pair: Option<Address>,
    whitelisted_tokens: Vec<TokenIdentifier>,
    limit_order_executor: Address,
    orders: OrderLedger,
    pending_swaps: ExecutionContextStore,
    events: Vec<Event>,
}

impl ContractBase for Contract {
    closed spec fn model(&self) -> ContractModel {
        ContractModel {
            owner: self.owner,
            paused: self.paused,
            max_slippage: self.max_slippage,
            execution_fee_bps: self.execution_fee_bps,
            xexchange_pair: self.xexchange_pair,
            whitelisted_tokens: tokens_view(self.whitelisted_tokens@),
            limit_order_executor: self.limit_order_executor,
            orders: self.orders@,
            pending_swaps: self.pending_swaps@,
            events: events_view(self.events@),
        }
    }

    closed spec fn inv(&self) -> bool {
        self.orders.inv() && self.model().valid()
    }

    proof fn lemma_valid(&self) {
    }
}

/// The position of `token` in `tokens`, if it is there.
fn find_token(tokens: &Vec<TokenIdentifier>, token: &TokenIdentifier) -> (r: Option<usize>)
    ensures
        match r {
            Some(i) => i < tokens@.len() && tokens_view(tokens@)[i as int] == token@,
            None => !tokens_view(tokens@).contains(token@),
        },
{
    let mut i: usize = 0;
    while i < tokens.len()
        invariant
            i <= tokens@.len(),
            forall|k: int| 0 <= k < i ==> tokens_view(tokens@)[k] != token@,
        decreases tokens@.len() - i,
    {
        if tokens[i] == *token {
            return Some(i);
        }
        i += 1;
    }
    None
}

impl Contract {
    /// Adds `event` to the log.
    fn log(&mut self, event: Event)
        requires
            old(self).inv(),
        ensures
            final(self).inv(),
            final(self).model() == old(self).model().emit(event@),
    {
        let ghost before = self.model();
        let ghost entries = self.events@;
        self.events.push(event);
        proof {
            assert(events_view(self.events@) =~= events_view(entries).push(event@));
            before.lemma_emit_valid(event@);
        }
    }
}

impl StorageModule for Contract {
    fn whitelisted_tokens(&self) -> (r: Vec<TokenIdentifier>) {
        let mut out: Vec<TokenIdentifier> = Vec::new();
        let mut i: usize = 0;
        while i < self.whitelisted_tokens.len()
            invariant
                i <= self.whitelisted_tokens@.len(),
                tokens_view(out@) == tokens_view(self.whitelisted_tokens@).take(i as int),
            decreases self.whitelisted_tokens@.len() - i,
        {
            let ghost earlier = out@;
            out.push(self.whitelisted_tokens[i].clone());
            assert(tokens_view(out@) =~= tokens_view(earlier).push(
                self.whitelisted_tokens@[i as int]@,
            ));
            i += 1;
        }
        assert(tokens_view(self.whitelisted_tokens@).take(i as int) =~= tokens_view(
            self.whitelisted_tokens@,
        ));
        out
    }

    fn xexchange_pair(&self) -> (r: Option<Address>) {
        self.xexchange_pair
    }

    fn owner(&self) -> (r: Address) {
        self.owner
    }

    fn paused(&self) -> (r: bool) {
        self.paused
    }

    fn max_slippage(&self) -> (r: u64) {
        self.max_slippage
    }

    fn pending_swap_executions(&self, order_id: u64) -> (r: Option<SwapExecutionContext>) {
        match self.pending_swaps.get(order_id) {
            Some(context) => Some(context.clone()),
            None => None,
        }
    }

    fn execution_fee_bps(&self) -> (r: u64) {
        self.execution_fee_bps
    }
}

impl EventsModule for Contract {
    fn token_whitelisted_event(&mut self, token: &TokenIdentifier) {
        self.log(Event::TokenWhitelisted { token: token.clone() });
    }

    fn token_removed_event(&mut self, token: &TokenIdentifier) {
        self.log(Event::TokenRemoved { token: token.clone() });
    }

    fn pause_state_changed_event(&mut self, paused: bool) {
        self.log(Event::PauseStateChanged { paused });
    }

    fn limit_order_created_event(
        &mut self,
        order_id: u64,
        user: &Address,
        from_token: &TokenIdentifier,
        from_amount: &BigUint,
        to_token: &TokenIdentifier,
        target_price_num: &BigUint,
        target_price_denom: &BigUint,
        expires_at: u64,
    ) {
        self.log(
            Event::LimitOrderCreated {
                order_id,
                user: *user,
                from_token: from_token.clone(),
                from_amount: from_amount.clone(),
                to_token: to_token.clone(),
                target_price_num: target_price_num.clone(),
                target_price_denom: target_price_denom.clone(),
                expires_at,
            },
        );
    }

    fn limit_order_executed_event(
        &mut self,
        order_id: u64,
        user: &Address,
        from_token: &TokenIdentifier,
        from_amount: &BigUint,
        to_token: &TokenIdentifier,
        to_amount: &BigUint,
        timestamp: u64,
    ) {
        self.log(
            Event::LimitOrderExecuted {
                order_id,
                user: *user,
                from_token: from_token.clone(),
                from_amount: from_amount.clone(),
                to_token: to_token.clone(),
                to_amount: to_amount.clone(),
                timestamp,
            },
        );
    }

    fn limit_order_cancelled_event(
        &mut self,
        order_id: u64,
        user: &Address,
        token: &TokenIdentifier,
        amount: &BigUint,
    ) {
        self.log(
            Event::LimitOrderCancelled {
                order_id,
                user: *user,
                token: token.clone(),
                amount: amount.clone(),
            },
        );
    }

    fn limit_order_expired_event(
        &mut self,
        order_id: u64,
        user: &Address,
        token: &TokenIdentifier,
        amount: &BigUint,
    ) {
        self.log(
            Event::LimitOrderExpired {
                order_id,
                user: *user,
                token: token.clone(),
                amount: amount.clone(),
            },
        );
    }

    fn take_events(&mut self) -> (r: Vec<Event>) {
        let ghost before = self.model();
        let mut taken: Vec<Event> = Vec::new();
        std::mem::swap(&mut self.events, &mut taken);
        proof {
            assert(events_view(self.events@) =~= Seq::<EventView>::empty());
            before.lemma_settings_valid(self.model());
        }
        taken
    }
}

impl DexModule for Contract {
    fn build_swap_request(&self, order: &LimitOrder, min_amount_out: &BigUint) -> (r: Option<
        SwapRequest,
    >) {
        match self.xexchange_pair {
            None => None,
            Some(pair) => Some(
                SwapRequest {
                    order_id: order.order_id,
                    pair,
                    from_token: order.from_token.clone(),
                    from_amount: order.from_amount.clone(),
                    to_token: order.to_token.clone(),
                    min_amount_out: min_amount_out.clone(),
                    gas_limit: SWAP_GAS_LIMIT,
                    callback_gas: SWAP_CALLBACK_GAS,
                },
            ),
        }
    }
}

impl LimitOrdersModule for Contract {
    fn create_limit_order(
        &mut self,
        caller: Address,
        now: u64,
        from_token: TokenIdentifier,
        from_amount: BigUint,
        to_token: TokenIdentifier,
        target_price_num: BigUint,
        target_price_denom: BigUint,
        slippage_bp: u64,
        expires_in_seconds: u64,
    ) -> (r: Result<u64, Error>) {
        let ghost before = self.model();
        let ghost request = OrderRequest {
            caller,
            now,
            from_token: from_token@,
            from_amount: from_amount@,
            to_token: to_token@,
            target_price_num: target_price_num@,
            target_price_denom: target_price_denom@,
            slippage_bp,
            expires_in_seconds,
        };
        if self.paused {
            return Err(Error::Paused);
        }
        if find_token(&self.whitelisted_tokens, &from_token).is_none() {
            return Err(Error::FromTokenNotWhitelisted);
        }
        if find_token(&self.whitelisted_tokens, &to_token).is_none() {
            return Err(Error::ToTokenNotWhitelisted);
        }
        if from_token == to_token {
            return Err(Error::SameToken);
        }
        if from_amount.is_zero() {
            return Err(Error::InvalidAmount);
        }
        if target_price_num.is_zero() {
            return Err(Error::InvalidPriceNumerator);
        }
        if target_price_denom.is_zero() {
            return Err(Error::InvalidPriceDenominator);
        }
        if slippage_bp > self.max_slippage || slippage_bp > BASIS_POINTS {
            return Err(Error::SlippageTooHigh);
        }
        if expires_in_seconds > u64::MAX - now {
            return Err(Error::ExpiryOverflow);
        }
        let expires_at = now + expires_in_seconds;
        let count = self.orders.len() as u64;
        if count >= u64::MAX - 1 {
            return Err(Error::OrderIdsExhausted);
        }
        let order_id = count + 1;
        let order = LimitOrder {
            order_id,
            user: caller,
            from_token: from_token.clone(),
            from_amount: from_amount.clone(),
            to_token: to_token.clone(),
            target_price_numerator: target_price_num.clone(),
            target_price_denominator: target_price_denom.clone(),
            slippage_bp,
            expires_at,
            status: OrderStatus::Pending,
            created_at: now,
        };
        proof {
            assert(before.create_failure(request) is None);
            assert(order@ == before.new_order(request));
            before.lemma_order_added_valid(request);
        }
        match self.orders.append(order) {
            Ok(_) => {},
            Err(e) => {
                return Err(e);
            },
        }
        self.limit_order_created_event(
            order_id,
            &caller,
            &from_token,
            &from_amount,
            &to_token,
            &target_price_num,
            &target_price_denom,
            expires_at,
        );
        Ok(order_id)
    }

    fn execute_limit_order(
        &mut self,
        caller: Address,
        now: u64,
        order_id: u64,
        current_price_num: BigUint,
        current_price_denom: BigUint,
    ) -> (r: Result<SwapRequest, Error>) {
        let ghost before = self.model();
        if self.paused {
            return Err(Error::Paused);
        }
        if caller != self.limit_order_executor {
            return Err(Error::NotExecutor);
        }
        let order = match self.orders.get(order_id) {
            Some(order) => order,
            None => {
                return Err(Error::OrderNotFound);
            },
        };
        if order.status != OrderStatus::Pending {
            return Err(Error::InvalidState);
        }
        if now > order.expires_at {
            return Err(Error::Expired);
        }
        let target_price = order.target_price_numerator.mul(&current_price_denom);
        let current_price = current_price_num.mul(&order.target_price_denominator);
        if current_price.gt(&target_price) {
            return Err(Error::PriceConditionNotMet);
        }
        if self.pending_swaps.contains(order_id) {
            return Err(Error::DuplicateExecution);
        }
        proof {
            assert(before.order(order_id).well_formed());
        }
        let min_amount_out = calculate_min_output(
            &order.from_amount,
            &order.target_price_numerator,
            &order.target_price_denominator,
            order.slippage_bp,
        );
        let request = match self.build_swap_request(order, &min_amount_out) {
            Some(request) => request,
            None => {
                return Err(Error::PairNotSet);
            },
        };
        let context = SwapExecutionContext {
            order_id,
            user: order.user,
            executor: caller,
            to_token: order.to_token.clone(),
            min_amount_out,
        };
        proof {
            assert(context@ == before.context_for(order_id, caller));
            before.lemma_execute_valid(
                caller,
                now,
                order_id,
                current_price_num@,
                current_price_denom@,
            );
        }
        match self.pending_swaps.insert(context) {
            Ok(()) => Ok(request),
            Err(e) => Err(e),
        }
    }

    fn swap_callback(&mut self, now: u64, order_id: u64, result: SwapResult) -> (r: Result<
        Settlement,
        Error,
    >) {
        let ghost before = self.model();
        let ghost cleared = ContractModel {
            pending_swaps: before.pending_swaps.remove(order_id),
            ..before
        };
        proof {
            before.lemma_context_removed_valid(order_id);
        }
        let context = match self.pending_swaps.take(order_id) {
            Ok(context) => context,
            Err(e) => {
                proof {
                    assert(before.pending_swaps.remove(order_id) =~= before.pending_swaps);
                }
                return Err(e);
            },
        };
        let payments = match result {
            SwapResult::Completed(payments) => payments,
            SwapResult::Failed(_) => {
                return Err(Error::SwapFailed);
            },
        };
        let output = find_swap_output(&payments, &context.to_token);
        if output.lt(&context.min_amount_out) {
            return Err(Error::SlippageViolation);
        }
        let (from_token, from_amount) = match self.orders.get(order_id) {
            Some(order) => {
                if order.status != OrderStatus::Pending {
                    return Err(Error::InvalidState);
                }
                (order.from_token.clone(), order.from_amount.clone())
            },
            None => {
                return Err(Error::InvalidState);
            },
        };
        proof {
            lemma_fee_at_most_output(output@, self.execution_fee_bps as nat);
        }
        let execution_fee = output.mul(&BigUint::from_u64(self.execution_fee_bps)).div(
            &BigUint::from_u64(BASIS_POINTS),
        );
        let user_amount = output.sub(&execution_fee);
        match self.orders.transition(order_id, OrderStatus::Executed) {
            Ok(()) => {},
            Err(e) => {
                return Err(e);
            },
        }
        proof {
            cleared.lemma_status_valid(order_id, OrderStatus::Executed);
            assert(self.model() == cleared.with_order_status(order_id, OrderStatus::Executed));
        }
        self.limit_order_executed_event(
            order_id,
            &context.user,
            &from_token,
            &from_amount,
            &context.to_token,
            &user_amount,
            now,
        );
        let executor_fee = if execution_fee.is_zero() {
            None
        } else {
            Some(
                Transfer {
                    to: context.executor,
                    token: context.to_token.clone(),
                    amount: execution_fee,
                },
            )
        };
        Ok(
            Settlement {
                executor_fee,
                user_payment: Transfer {
                    to: context.user,
                    token: context.to_token,
                    amount: user_amount,
                },
            },
        )
    }

    fn cancel_limit_order(&mut self, caller: Address, order_id: u64) -> (r: Result<
        Transfer,
        Error,
    >) {
        let ghost before = self.model();
        let (from_token, from_amount) = match self.orders.get(order_id) {
            Some(order) => {
                if order.user != caller {
                    return Err(Error::NotOwner);
                }
                if order.status != OrderStatus::Pending {
                    return Err(Error::InvalidState);
                }
                (order.from_token.clone(), order.from_amount.clone())
            },
            None => {
                return Err(Error::OrderNotFound);
            },
        };
        match self.orders.transition(order_id, OrderStatus::Cancelled) {
            Ok(()) => {},
            Err(e) => {
                return Err(e);
            },
        }
        proof {
            before.lemma_status_valid(order_id, OrderStatus::Cancelled);
            assert(self.model() == before.with_order_status(order_id, OrderStatus::Cancelled));
        }
        self.limit_order_cancelled_event(order_id, &caller, &from_token, &from_amount);
        Ok(Transfer { to: caller, token: from_token, amount: from_amount })
    }

    fn get_pending_orders(&self) -> (r: Vec<LimitOrder>) {
        self.orders.list_pending()
    }

    fn get_user_orders(&self, user: Address) -> (r: Vec<LimitOrder>) {
        self.orders.list_by_user(user)
    }

    fn get_order(&self, order_id: u64) -> (r: Option<LimitOrder>) {
        match self.orders.get(order_id) {
            Some(order) => Some(order.clone()),
            None => None,
        }
    }

    fn set_limit_order_executor(&mut self, caller: Address, executor: Address) -> (r: Result<
        (),
        Error,
    >) {
        let ghost before = self.model();
        if caller != self.owner {
            return Err(Error::NotContractOwner);
        }
        self.limit_order_executor = executor;
        proof {
            before.lemma_settings_valid(self.model());
        }
        Ok(())
    }

    fn set_execution_fee_bps(&mut self, caller: Address, fee_bps: u64) -> (r: Result<(), Error>) {
        let ghost before = self.model();
        if caller != self.owner {
            return Err(Error::NotContractOwner);
        }
        if fee_bps > MAX_EXECUTION_FEE_BPS {
            return Err(Error::FeeTooHigh);
        }
        self.execution_fee_bps = fee_bps;
        proof {
            before.lemma_settings_valid(self.model());
        }
        Ok(())
    }

    fn calculate_min_output(
        &self,
        from_amount: &BigUint,
        target_price_num: &BigUint,
        target_price_denom: &BigUint,
        slippage_bp: u64,
    ) -> (r: BigUint) {
        calculate_min_output(from_amount, target_price_num, target_price_denom, slippage_bp)
    }

    fn next_order_id(&self) -> (r: u64) {
        self.orders.len() as u64 + 1
    }

    fn limit_order_executor(&self) -> (r: Address) {
        self.limit_order_executor
    }
}

/// The contract as a whole: what sets it up and what its owner may change.
pub trait StellarNova: StorageModule + EventsModule + DexModule + LimitOrdersModule + Sized {
    /// A new contract, owned by `caller`, who is also its first executor. `initial_tokens`
    /// are whitelisted, each once.
    fn init(caller: Address, max_slippage_bp: u64, initial_tokens: Vec<TokenIdentifier>) -> (r:
        Self)
        ensures
            r.inv(),
            r.model() == ContractModel::initial(
                caller,
                max_slippage_bp,
                tokens_view(initial_tokens@),
            ),
    ;

    /// Puts `token` on the whitelist. For the owner only.
    fn whitelist_token(&mut self, caller: Address, token: TokenIdentifier) -> (r: Result<
        (),
        Error,
    >)
        requires
            old(self).inv(),
        ensures
            final(self).inv(),
            final(self).model() == old(self).model().after_whitelist(caller, token@),
            r == outcome(old(self).model().whitelist_failure(caller, token@)),
    ;

    /// Takes `token` off the whitelist. For the owner only.
    fn remove_token(&mut self, caller: Address, token: TokenIdentifier) -> (r: Result<(), Error>)
        requires
            old(self).inv(),
        ensures
            final(self).inv(),
            final(self).model() == old(self).model().after_remove(caller, token@),
            r == outcome(old(self).model().remove_failure(caller, token@)),
    ;

    /// Pauses or resumes the contract. For the owner only.
    fn set_paused(&mut self, caller: Address, paused: bool) -> (r: Result<(), Error>)
        requires
            old(self).inv(),
        ensures
            final(self).inv(),
            final(self).model() == old(self).model().after_set_paused(caller, paused),
            r == outcome(old(self).model().owner_failure(caller)),
    ;

    /// Sets the greatest slippage tolerance that an order may ask for. For the owner only.
    fn set_max_slippage(&mut self, caller: Address, max_slippage_bp: u64) -> (r: Result<
        (),
        Error,
    >)
        requires
            old(self).inv(),
        ensures
            final(self).inv(),
            final(self).model() == old(self).model().after_set_max_slippage(
                caller,
                max_slippage_bp,
            ),
            r == outcome(old(self).model().owner_failure(caller)),
    ;

    /// Sets the pair that swaps are sent to. For the owner only.
    fn set_xexchange_pair(&mut self, caller: Address, pair: Address) -> (r: Result<(), Error>)
        requires
            old(self).inv(),
        ensures
            final(self).inv(),
            final(self).model() == old(self).model().after_set_xexchange_pair(caller, pair),
            r == outcome(old(self).model().owner_failure(caller)),
    ;

    /// Takes over after a change of code: all that the contract remembers stays.
    fn upgrade(&mut self)
        requires
            old(self).inv(),
        ensures
            final(self).inv(),
            final(self).model() == old(self).model(),
    ;

    /// Whether `token` is on the whitelist.
    fn is_token_whitelisted(&self, token: TokenIdentifier) -> (r: bool)
        ensures
            r == self.model().whitelisted_tokens.contains(token@),
    ;
}

impl StellarNova for Contract {
    fn init(caller: Address, max_slippage_bp: u64, initial_tokens: Vec<TokenIdentifier>) -> (r:
        Contract) {
        let ghost given = tokens_view(initial_tokens@);
        let mut whitelisted_tokens: Vec<TokenIdentifier> = Vec::new();
        let mut i: usize = 0;
        proof {
            assert(given.take(0) =~= Seq::<Seq<u8>>::empty());
            assert(tokens_view(whitelisted_tokens@) =~= first_occurrences(given.take(0)));
        }
        while i < initial_tokens.len()
            invariant
                i <= initial_tokens@.len(),
                given == tokens_view(initial_tokens@),
                tokens_view(whitelisted_tokens@) == first_occurrences(given.take(i as int)),
            decreases initial_tokens@.len() - i,
        {
            proof {
                assert(given.take(i + 1).drop_last() =~= given.take(i as int));
                assert(given.take(i + 1).last() == initial_tokens@[i as int]@);
            }
            if find_token(&whitelisted_tokens, &initial_tokens[i]).is_none() {
                let ghost earlier = whitelisted_tokens@;
                whitelisted_tokens.push(initial_tokens[i].clone());
                assert(tokens_view(whitelisted_tokens@) =~= tokens_view(earlier).push(
                    initial_tokens@[i as int]@,
                ));
            }
            i += 1;
        }
        proof {
            assert(given.take(i as int) =~= given);
            ContractModel::lemma_initial_valid(caller, max_slippage_bp, given);
        }
        let r = Contract {
            owner: caller,
            paused: false,
            max_slippage: max_slippage_bp,
            execution_fee_bps: DEFAULT_EXECUTION_FEE_BPS,
            xexchange_pair: None,
            whitelisted_tokens,
            limit_order_executor: caller,
            orders: OrderLedger::new(),
            pending_swaps: ExecutionContextStore::new(),
            events: Vec::new(),
        };
        proof {
            assert(events_view(r.events@) =~= Seq::<EventView>::empty());
            assert(r.model() == ContractModel::initial(caller, max_slippage_bp, given));
        }
        r
    }

    fn whitelist_token(&mut self, caller: Address, token: TokenIdentifier) -> (r: Result<
        (),
        Error,
    >) {
        let ghost before = self.model();
        if caller != self.owner {
            return Err(Error::NotContractOwner);
        }
        if find_token(&self.whitelisted_tokens, &token).is_some() {
            return Err(Error::AlreadyWhitelisted);
        }
        let ghost earlier = self.whitelisted_tokens@;
        self.whitelisted_tokens.push(token.clone());
        proof {
            assert(tokens_view(self.whitelisted_tokens@) =~= tokens_view(earlier).push(token@));
            before.lemma_settings_valid(self.model());
        }
        self.token_whitelisted_event(&token);
        Ok(())
    }

    fn remove_token(&mut self, caller: Address, token: TokenIdentifier) -> (r: Result<(), Error>) {
        let ghost before = self.model();
        if caller != self.owner {
            return Err(Error::NotContractOwner);
        }
        let i = match find_token(&self.whitelisted_tokens, &token) {
            Some(i) => i,
            None => {
                return Err(Error::NotWhitelisted);
            },
        };
        let ghost earlier = self.whitelisted_tokens@;
        proof {
            let listed = before.whitelisted_tokens;
            let j = listed.index_of(token@);
            assert(listed[i as int] == token@);
            assert(listed[j] == token@);
            assert(j == i);
        }
        self.whitelisted_tokens.swap_remove(i);
        proof {
            assert(tokens_view(self.whitelisted_tokens@) =~= swap_removed(
                tokens_view(earlier),
                i as int,
            ));
            lemma_swap_removed(before.whitelisted_tokens, i as int);
            before.lemma_settings_valid(self.model());
        }
        self.token_removed_event(&token);
        Ok(())
    }

    fn set_paused(&mut self, caller: Address, paused: bool) -> (r: Result<(), Error>) {
        let ghost before = self.model();
        if caller != self.owner {
            return Err(Error::NotContractOwner);
        }
        self.paused = paused;
        proof {
            before.lemma_settings_valid(self.model());
        }
        self.pause_state_changed_event(paused);
        Ok(())
    }

    fn set_max_slippage(&mut self, caller: Address, max_slippage_bp: u64) -> (r: Result<
        (),
        Error,
    >) {
        let ghost before = self.model();
        if caller != self.owner {
            return Err(Error::NotContractOwner);
        }
        self.max_slippage = max_slippage_bp;
        proof {
            before.lemma_settings_valid(self.model());
        }
        Ok(())
    }

    fn set_xexchange_pair(&mut self, caller: Address, pair: Address) -> (r: Result<(), Error>) {
        let ghost before = self.model();
        if caller != self.owner {
            return Err(Error::NotContractOwner);
        }
        self.xexchange_pair = Some(pair);
        proof {
            before.lemma_settings_valid(self.model());
        }
        Ok(())
    }

    fn upgrade(&mut self) {
    }

    fn is_token_whitelisted(&self, token: TokenIdentifier) -> (r: bool) {
        find_token(&self.whitelisted_tokens, &token).is_some()
    }
}

/// Whether `order` satisfies what an order must.
fn order_well_formed(order: &LimitOrder) -> (r: bool)
    ensures
        r == order@.well_formed(),
{
    order.from_token != order.to_token && !order.from_amount.is_zero()
        && !order.target_price_numerator.is_zero() && !order.target_price_denominator.is_zero()
        && order.slippage_bp <= BASIS_POINTS && order.created_at <= order.expires_at
}

impl Contract {
    /// Reads a contract back from what was written down, if that is what a contract can
    /// have written down. The event log starts empty.
    pub fn restore(snapshot: Snapshot) -> (r: Option<Contract>)
        ensures
            match r {
                Some(contract) => snapshot.acceptable() && contract.inv() && contract.model()
                    == snapshot@,
                None => !snapshot.acceptable(),
            },
    {
        let ghost model = snapshot@;
        if snapshot.execution_fee_bps > MAX_EXECUTION_FEE_BPS {
            return None;
        }
        // The whitelist: no token twice.
        let ghost listed = tokens_view(snapshot.whitelisted_tokens@);
        let mut whitelisted_tokens: Vec<TokenIdentifier> = Vec::new();
        let mut i: usize = 0;
        assert(listed.take(0) =~= Seq::<Seq<u8>>::empty());
        while i < snapshot.whitelisted_tokens.len()
            invariant
                i <= snapshot.whitelisted_tokens@.len(),
                model == snapshot@,
                listed == tokens_view(snapshot.whitelisted_tokens@),
                whitelisted_tokens@.len() == i,
                tokens_view(whitelisted_tokens@) == listed.take(i as int),
                listed.take(i as int).no_duplicates(),
            decreases snapshot.whitelisted_tokens@.len() - i,
        {
            match find_token(&whitelisted_tokens, &snapshot.whitelisted_tokens[i]) {
                Some(j) => {
                    proof {
                        assert(listed[j as int] == listed.take(i as int)[j as int]);
                        assert(listed[j as int] == listed[i as int]);
                    }
                    return None;
                },
                None => {},
            }
            let ghost earlier = whitelisted_tokens@;
            whitelisted_tokens.push(snapshot.whitelisted_tokens[i].clone());
            proof {
                assert(tokens_view(whitelisted_tokens@) =~= tokens_view(earlier).push(
                    listed[i as int],
                ));
                assert(listed.take(i + 1) =~= listed.take(i as int).push(listed[i as int]));
                let longer = listed.take(i + 1);
                assert forall|a: int, b: int|
                    0 <= a < longer.len() && 0 <= b < longer.len() && a != b implies (
                #[trigger] longer[a]) != (#[trigger] longer[b]) by {
                    if a < i && b < i {
                        assert(listed.take(i as int)[a] != listed.take(i as int)[b]);
                    } else if a < i {
                        assert(listed.take(i as int)[a] == listed[a]);
                        assert(listed.take(i as int).contains(listed[a]));
                    } else {
                        assert(listed.take(i as int)[b] == listed[b]);
                        assert(listed.take(i as int).contains(listed[b]));
                    }
                }
            }
            i += 1;
        }
        assert(listed.take(i as int) =~= listed);
        // The orders: numbered from one, each well formed.
        let ghost given = orders_view(snapshot.orders@);
        let mut orders = OrderLedger::new();
        let mut i: usize = 0;
        assert(given.take(0) =~= Seq::<LimitOrderView>::empty());
        while i < snapshot.orders.len()
            invariant
                i <= snapshot.orders@.len(),
                model == snapshot@,
                given == orders_view(snapshot.orders@),
                orders.inv(),
                orders@ == given.take(i as int),
                i < u64::MAX,
                forall|k: int| 0 <= k < i ==> (#[trigger] given[k]).order_id == k + 1,
                forall|k: int| 0 <= k < i ==> (#[trigger] given[k]).well_formed(),
            decreases snapshot.orders@.len() - i,
        {
            let order = &snapshot.orders[i];
            if i as u64 >= u64::MAX - 1 {
                return None;
            }
            if order.order_id != i as u64 + 1 || !order_well_formed(order) {
                proof {
                    assert(given[i as int] == order@);
                }
                return None;
            }
            match orders.append(order.clone()) {
                Ok(_) => {},
                Err(_) => {
                    return None;
                },
            }
            proof {
                assert(given.take(i + 1) =~= given.take(i as int).push(given[i as int]));
            }
            i += 1;
        }
        assert(given.take(i as int) =~= given);
        // The swaps under way: one for an order at most, each for an order that exists, and
        // as that order has it.
        let ghost kept = contexts_view(snapshot.pending_swaps@);
        let mut pending_swaps = ExecutionContextStore::new();
        let mut i: usize = 0;
        assert(kept.take(0) =~= Seq::<SwapExecutionContextView>::empty());
        while i < snapshot.pending_swaps.len()
            invariant
                i <= snapshot.pending_swaps@.len(),
                model == snapshot@,
                kept == contexts_view(snapshot.pending_swaps@),
                orders.inv(),
                orders@ == given,
                model.orders == given,
                forall|k: int| 0 <= k < given.len() ==> (#[trigger] given[k]).well_formed(),
                pending_swaps@ == contexts_map(kept.take(i as int)),
                distinct_orders(kept.take(i as int)),
                forall|k: u64| #[trigger]
                    pending_swaps@.contains_key(k) ==> model.has_order(k) && pending_swaps@[k]
                        == model.context_for(k, pending_swaps@[k].executor),
            decreases snapshot.pending_swaps@.len() - i,
        {
            let context = &snapshot.pending_swaps[i];
            let ghost key = context.order_id;
            proof {
                assert(kept[i as int] == context@);
                assert(kept.take(i + 1) =~= kept.take(i as int).push(kept[i as int]));
                assert(kept.take(i + 1).drop_last() =~= kept.take(i as int));
                lemma_contexts_map(kept.take(i as int));
            }
            if pending_swaps.contains(context.order_id) {
                proof {
                    let j = choose|j: int|
                        0 <= j < i && (#[trigger] kept.take(i as int)[j]).order_id == key;
                    assert(kept[j].order_id == kept[i as int].order_id);
                }
                return None;
            }
            proof {
                assert forall|a: int, b: int| 0 <= a < b < i + 1 implies (#[trigger] kept.take(
                    i + 1,
                )[a]).order_id != (#[trigger] kept.take(i + 1)[b]).order_id by {
                    if b < i {
                        assert(kept.take(i as int)[a].order_id != kept.take(i as int)[b].order_id);
                    } else {
                        assert(kept.take(i as int)[a].order_id != key);
                    }
                }
            }
            let matches = match orders.get(context.order_id) {
                None => false,
                Some(order) => {
                    proof {
                        assert(order@ == given[context.order_id - 1]);
                    }
                    let min_amount_out = calculate_min_output(
                        &order.from_amount,
                        &order.target_price_numerator,
                        &order.target_price_denominator,
                        order.slippage_bp,
                    );
                    context.user == order.user && context.to_token == order.to_token
                        && context.min_amount_out == min_amount_out
                },
            };
            if !matches {
                proof {
                    // Were the snapshot acceptable, this swap would be found under its order
                    // and be as the order has it.
                    if snapshot.acceptable() {
                        lemma_contexts_map(kept);
                        assert(model.pending_swaps.contains_key(kept[i as int].order_id));
                        assert(model.pending_swaps[key] == kept[i as int]);
                    }
                }
                return None;
            }
            match pending_swaps.insert(context.clone()) {
                Ok(()) => {},
                Err(_) => {
                    return None;
                },
            }
            i += 1;
        }
        assert(kept.take(i as int) =~= kept);
        let contract = Contract {
            owner: snapshot.owner,
            paused: snapshot.paused,
            max_slippage: snapshot.max_slippage,
            execution_fee_bps: snapshot.execution_fee_bps,
            xexchange_pair: snapshot.xexchange_pair,
            whitelisted_tokens,
            limit_order_executor: snapshot.limit_order_executor,
            orders,
            pending_swaps,
            events: Vec::new(),
        };
        proof {
            assert(events_view(contract.events@) =~= Seq::<EventView>::empty());
            assert(contract.model() == model);
            contract.orders.lemma_numbered();
        }
        Some(contract)
    }
}

impl Contract {
    /// Writes down all that the contract remembers, but for the event log: orders by
    /// identifier, swaps under way by order.
    pub fn snapshot(&self) -> (r: Snapshot)
        requires
            self.inv(),
        ensures
            r.acceptable(),
            r@ == (ContractModel { events: Seq::empty(), ..self.model() }),
    {
        let ghost model = self.model();
        proof {
            self.orders.lemma_numbered();
        }
        let count = self.orders.len();
        let mut orders: Vec<LimitOrder> = Vec::new();
        let mut pending_swaps: Vec<SwapExecutionContext> = Vec::new();
        let mut i: usize = 0;
        proof {
            assert(orders_view(orders@) =~= model.orders.take(0));
            assert(contexts_map(contexts_view(pending_swaps@)) =~= Map::<
                u64,
                SwapExecutionContextView,
            >::empty());
        }
        while i < count
            invariant
                i <= count,
                count == model.orders.len(),
                count < u64::MAX,
                self.inv(),
                model == self.model(),
                orders_view(orders@) == model.orders.take(i as int),
                distinct_orders(contexts_view(pending_swaps@)),
                forall|j: int|
                    0 <= j < pending_swaps@.len() ==> (#[trigger] contexts_view(
                        pending_swaps@,
                    )[j]).order_id <= i,
                forall|k: u64| #[trigger]
                    contexts_map(contexts_view(pending_swaps@)).contains_key(k) <==> k <= i
                        && model.pending_swaps.contains_key(k),
                forall|k: u64| #[trigger]
                    contexts_map(contexts_view(pending_swaps@)).contains_key(k) ==> contexts_map(
                        contexts_view(pending_swaps@),
                    )[k] == model.pending_swaps[k],
            decreases count - i,
        {
            let order_id = i as u64 + 1;
            let ghost earlier = orders@;
            let ghost kept = contexts_view(pending_swaps@);
            match self.orders.get(order_id) {
                Some(order) => {
                    orders.push(order.clone());
                },
                None => {},
            }
            proof {
                assert(orders_view(orders@) =~= orders_view(earlier).push(model.orders[i as int]));
                assert(model.orders.take(i + 1) =~= model.orders.take(i as int).push(
                    model.orders[i as int],
                ));
            }
            match self.pending_swaps.get(order_id) {
                Some(context) => {
                    let ghost added = context@;
                    pending_swaps.push(context.clone());
                    proof {
                        self.lemma_valid();
                        assert(model.pending_swaps.contains_key(order_id));
                        assert(added.order_id == order_id);
                        assert(added == model.pending_swaps[order_id]);
                        assert(contexts_view(pending_swaps@) =~= kept.push(added));
                        assert(kept.push(added).drop_last() =~= kept);
                        assert(contexts_map(kept.push(added)) == contexts_map(kept).insert(
                            order_id,
                            added,
                        ));
                    }
                },
                None => {},
            }
            i += 1;
        }
        let r = Snapshot {
            owner: self.owner,
            paused: self.paused,
            max_slippage: self.max_slippage,
            execution_fee_bps: self.execution_fee_bps,
            xexchange_pair: self.xexchange_pair,
            whitelisted_tokens: self.whitelisted_tokens(),
            limit_order_executor: self.limit_order_executor,
            orders,
            pending_swaps,
        };
        proof {
            self.lemma_valid();
            assert(model.orders.take(count as int) =~= model.orders);
            assert(r@.pending_swaps =~= model.pending_swaps) by {
                assert forall|k: u64| model.pending_swaps.contains_key(k) implies k <= count by {
                    assert(model.has_order(k));
                }
            }
            let emptied = ContractModel { events: Seq::empty(), ..model };
            assert(r@ == emptied);
            model.lemma_settings_valid(emptied);
        }
        r
    }
}

} // verus!
