//! What the contract keeps between calls besides the orders: its settings and the swaps that
//! are under way.

use crate::biguint::BigUint;
use crate::errors::Error;
use crate::contract::ContractBase;
use crate::ledger::orders_view;
use crate::limit_orders::LimitOrder;
use crate::model::ContractModel;
use crate::types::{tokens_view, Address, TokenIdentifier};
use std::collections::HashMap;
use vstd::prelude::*;

verus! {

/// What is kept of a swap while it is under way, to settle it when its result comes in.
#[derive(Debug)]
pub struct SwapExecutionContext {
    pub order_id: u64,
    pub user: Address,
    pub executor: Address,
    pub to_token: TokenIdentifier,
    pub min_amount_out: BigUint,
}

/// What a [`SwapExecutionContext`] stands for.
pub struct SwapExecutionContextView {
    pub order_id: u64,
    pub user: Address,
    pub executor: Address,
    pub to_token: Seq<u8>,
    pub min_amount_out: nat,
}

impl View for SwapExecutionContext {
    type V = SwapExecutionContextView;

    open spec fn view(&self) -> SwapExecutionContextView {
        SwapExecutionContextView {
            order_id: self.order_id,
            user: self.user,
            executor: self.executor,
            to_token: self.to_token@,
            min_amount_out: self.min_amount_out@,
        }
    }
}

impl Clone for SwapExecutionContext {
    fn clone(&self) -> (r: SwapExecutionContext)
        ensures
            r@ == self@,
    {
        SwapExecutionContext {
            order_id: self.order_id,
            user: self.user,
            executor: self.executor,
            to_token: self.to_token.clone(),
            min_amount_out: self.min_amount_out.clone(),
        }
    }
}

/// The swaps under way: at most one for each order.
pub struct ExecutionContextStore {
    contexts: HashMap<u64, SwapExecutionContext>,
}

impl View for ExecutionContextStore {
    type V = Map<u64, SwapExecutionContextView>;

    closed spec fn view(&self) -> Map<u64, SwapExecutionContextView> {
        Map::new(
            |k: u64| self.contexts@.contains_key(k),
            |k: u64| self.contexts@[k]@,
        )
    }
}

impl ExecutionContextStore {
    /// A store with no swap under way.
    pub fn new() -> (r: ExecutionContextStore)
        ensures
            r@ == Map::<u64, SwapExecutionContextView>::empty(),
    {
        let r = ExecutionContextStore { contexts: HashMap::new() };
        assert(r@ =~= Map::<u64, SwapExecutionContextView>::empty());
        r
    }

    /// Whether a swap is under way for the order `order_id`.
    pub fn contains(&self, order_id: u64) -> (r: bool)
        ensures
            r == self@.contains_key(order_id),
    {
        self.contexts.contains_key(&order_id)
    }

    /// What is kept of the swap for the order `order_id`, if one is under way.
    pub fn get(&self, order_id: u64) -> (r: Option<&SwapExecutionContext>)
        ensures
            match r {
                Some(context) => self@.contains_key(order_id) && context@ == self@[order_id],
                None => !self@.contains_key(order_id),
            },
    {
        self.contexts.get(&order_id)
    }

    /// Notes the swap `context` as under way for the order `context.order_id`, unless one is
    /// already.
    pub fn insert(&mut self, context: SwapExecutionContext) -> (r: Result<(), Error>)
        ensures
            old(self)@.contains_key(context.order_id) ==> r == Err::<(), Error>(
                Error::DuplicateExecution,
            ) && final(self)@ == old(self)@,
            !old(self)@.contains_key(context.order_id) ==> r == Ok::<(), Error>(())
                && final(self)@ == old(self)@.insert(context.order_id, context@),
    {
        if self.contexts.contains_key(&context.order_id) {
            return Err(Error::DuplicateExecution);
        }
        let ghost before = self@;
        let ghost key = context.order_id;
        let ghost value = context@;
        self.contexts.insert(context.order_id, context);
        assert(self@ =~= before.insert(key, value));
        Ok(())
    }

    /// Takes out what is kept of the swap for the order `order_id`.
    pub fn take(&mut self, order_id: u64) -> (r: Result<SwapExecutionContext, Error>)
        ensures
            final(self)@ == old(self)@.remove(order_id),
            match r {
                Ok(context) => old(self)@.contains_key(order_id) && context@ == old(
                    self,
                )@[order_id],
                Err(e) => !old(self)@.contains_key(order_id) && e == Error::ContextNotFound,
            },
    {
        let ghost before = self@;
        let taken = self.contexts.remove(&order_id);
        assert(self@ =~= before.remove(order_id));
        match taken {
            Some(context) => Ok(context),
            None => Err(Error::ContextNotFound),
        }
    }
}

/// The settings of the contract and the swaps under way, as they can be read.
pub trait StorageModule: ContractBase {
    /// The tokens that can be traded.
    fn whitelisted_tokens(&self) -> (r: Vec<TokenIdentifier>)
        ensures
            tokens_view(r@) == self.model().whitelisted_tokens,
    ;

    /// The pair that swaps are sent to, once it is set.
    fn xexchange_pair(&self) -> (r: Option<Address>)
        ensures
            r == self.model().xexchange_pair,
    ;

    /// The owner of the contract.
    fn owner(&self) -> (r: Address)
        ensures
            r == self.model().owner,
    ;

    /// Whether the contract is paused.
    fn paused(&self) -> (r: bool)
        ensures
            r == self.model().paused,
    ;

    /// The greatest slippage tolerance that an order may ask for, in basis points.
    fn max_slippage(&self) -> (r: u64)
        ensures
            r == self.model().max_slippage,
    ;

    /// What is kept of the swap under way for the order `order_id`, if there is one.
    fn pending_swap_executions(&self, order_id: u64) -> (r: Option<SwapExecutionContext>)
        ensures
            match r {
                Some(context) => self.model().pending_swaps.contains_key(order_id) && context@
                    == self.model().pending_swaps[order_id],
                None => !self.model().pending_swaps.contains_key(order_id),
            },
    ;

    /// The executor's share of a swap's output, in basis points.
    fn execution_fee_bps(&self) -> (r: u64)
        ensures
            r == self.model().execution_fee_bps,
    ;
}

/// What a list of swaps under way stands for.
pub open spec fn contexts_view(contexts: Seq<SwapExecutionContext>) -> Seq<
    SwapExecutionContextView,
> {
    contexts.map_values(|c: SwapExecutionContext| c@)
}

/// The swaps of `contexts` by order identifier; of two for one order, the later.
pub open spec fn contexts_map(contexts: Seq<SwapExecutionContextView>) -> Map<
    u64,
    SwapExecutionContextView,
>
    decreases contexts.len(),
{
    if contexts.len() == 0 {
        Map::empty()
    } else {
        contexts_map(contexts.drop_last()).insert(contexts.last().order_id, contexts.last())
    }
}

/// Whether no two of `contexts` are for one order.
pub open spec fn distinct_orders(contexts: Seq<SwapExecutionContextView>) -> bool {
    forall|i: int, j: int|
        0 <= i < j < contexts.len() ==> (#[trigger] contexts[i]).order_id != (
        #[trigger] contexts[j]).order_id
}

/// Where no two of `contexts` are for one order, each is found under its order, and nothing
/// else is.
pub proof fn lemma_contexts_map(contexts: Seq<SwapExecutionContextView>)
    requires
        distinct_orders(contexts),
    ensures
        forall|i: int|
            0 <= i < contexts.len() ==> contexts_map(contexts).contains_key(
                (#[trigger] contexts[i]).order_id,
            ) && contexts_map(contexts)[contexts[i].order_id] == contexts[i],
        forall|k: u64| #[trigger]
            contexts_map(contexts).contains_key(k) ==> exists|i: int|
                0 <= i < contexts.len() && (#[trigger] contexts[i]).order_id == k,
    decreases contexts.len(),
{
    if contexts.len() > 0 {
        let rest = contexts.drop_last();
        assert forall|i: int, j: int| 0 <= i < j < rest.len() implies (#[trigger] rest[i]).order_id
            != (#[trigger] rest[j]).order_id by {
            assert(rest[i] == contexts[i]);
            assert(rest[j] == contexts[j]);
        }
        lemma_contexts_map(rest);
        assert forall|i: int| 0 <= i < contexts.len() implies contexts_map(contexts).contains_key(
            (#[trigger] contexts[i]).order_id,
        ) && contexts_map(contexts)[contexts[i].order_id] == contexts[i] by {
            if i < rest.len() {
                assert(rest[i] == contexts[i]);
                assert(contexts[i].order_id != contexts[contexts.len() - 1].order_id);
            }
        }
        assert forall|k: u64| #[trigger] contexts_map(contexts).contains_key(k) implies exists|
            i: int,
        |
            0 <= i < contexts.len() && (#[trigger] contexts[i]).order_id == k by {
            if k == contexts.last().order_id {
                assert(contexts[contexts.len() - 1].order_id == k);
            } else {
                assert(contexts_map(rest).contains_key(k));
                let i = choose|i: int| 0 <= i < rest.len() && (#[trigger] rest[i]).order_id == k;
                assert(contexts[i].order_id == k);
            }
        }
    }
}

/// All that a contract remembers between calls, as plain values: what is written down to
/// keep a contract, and read back to go on with it.
#[derive(Debug)]
pub struct Snapshot {
    pub owner: Address,
    pub paused: bool,
    pub max_slippage: u64,
    pub execution_fee_bps: u64,
    pub xexchange_pair: Option<Address>,
    pub whitelisted_tokens: Vec<TokenIdentifier>,
    pub limit_order_executor: Address,
    /// The orders, by identifier.
    pub orders: Vec<LimitOrder>,
    /// The swaps under way.
    pub pending_swaps: Vec<SwapExecutionContext>,
}

impl View for Snapshot {
    type V = ContractModel;

    open spec fn view(&self) -> ContractModel {
        ContractModel {
            owner: self.owner,
            paused: self.paused,
            max_slippage: self.max_slippage,
            execution_fee_bps: self.execution_fee_bps,
            xexchange_pair: self.xexchange_pair,
            whitelisted_tokens: tokens_view(self.whitelisted_tokens@),
            limit_order_executor: self.limit_order_executor,
            orders: orders_view(self.orders@),
            pending_swaps: contexts_map(contexts_view(self.pending_swaps@)),
            events: Seq::empty(),
        }
    }
}

impl Snapshot {
    /// Whether this is what a contract can have written down: a valid state, with no two
    /// swaps for one order.
    pub open spec fn acceptable(&self) -> bool {
        self@.valid() && distinct_orders(contexts_view(self.pending_swaps@))
    }
}

} // verus!
