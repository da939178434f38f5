//! The exchange that carries out the swaps: what it is asked and what it answers.

use crate::biguint::BigUint;
use crate::limit_orders::LimitOrder;
use crate::storage::StorageModule;
use crate::types::{Address, EsdtTokenPayment, PaymentView, TokenIdentifier, Transfer, TransferView};
use vstd::prelude::*;

verus! {

/// The gas given to a swap.
pub const SWAP_GAS_LIMIT: u64 = 30_000_000;

/// The gas kept for handling the swap's result.
pub const SWAP_CALLBACK_GAS: u64 = 10_000_000;

/// A swap to be sent to the exchange: `from_amount` of `from_token` for at least
/// `min_amount_out` of `to_token`. Its result is to come back under `order_id`.
#[derive(Debug)]
pub struct SwapRequest {
    pub order_id: u64,
    pub pair: Address,
    pub from_token: TokenIdentifier,
    pub from_amount: BigUint,
    pub to_token: TokenIdentifier,
    pub min_amount_out: BigUint,
    pub gas_limit: u64,
    pub callback_gas: u64,
}

/// What a [`SwapRequest`] stands for.
pub struct SwapRequestView {
    pub order_id: u64,
    pub pair: Address,
    pub from_token: Seq<u8>,
    pub from_amount: nat,
    pub to_token: Seq<u8>,
    pub min_amount_out: nat,
    pub gas_limit: u64,
    pub callback_gas: u64,
}

impl View for SwapRequest {
    type V = SwapRequestView;

    open spec fn view(&self) -> SwapRequestView {
        SwapRequestView {
            order_id: self.order_id,
            pair: self.pair,
            from_token: self.from_token@,
            from_amount: self.from_amount@,
            to_token: self.to_token@,
            min_amount_out: self.min_amount_out@,
            gas_limit: self.gas_limit,
            callback_gas: self.callback_gas,
        }
    }
}

/// The exchange's answer to a swap.
#[derive(Debug)]
pub enum SwapResult {
    /// The swap went through and paid these amounts.
    Completed(Vec<EsdtTokenPayment>),
    /// The swap did not go through; the exchange's message is attached.
    Failed(Vec<u8>),
}

/// What a [`SwapResult`] stands for.
pub enum SwapResultView {
    Completed(Seq<PaymentView>),
    Failed(Seq<u8>),
}

/// What a list of payments stands for.
pub open spec fn payments_view(payments: Seq<EsdtTokenPayment>) -> Seq<PaymentView> {
    payments.map_values(|p: EsdtTokenPayment| p@)
}

impl View for SwapResult {
    type V = SwapResultView;

    open spec fn view(&self) -> SwapResultView {
        match *self {
            SwapResult::Completed(payments) => SwapResultView::Completed(payments_view(payments@)),
            SwapResult::Failed(message) => SwapResultView::Failed(message@),
        }
    }
}

/// The amount of `token` among `payments`: that of the first payment in this token, zero where
/// there is none.
pub open spec fn swap_output(payments: Seq<PaymentView>, token: Seq<u8>) -> nat
    decreases payments.len(),
{
    if payments.len() == 0 {
        0
    } else if payments[0].token_identifier == token {
        payments[0].amount
    } else {
        swap_output(payments.skip(1), token)
    }
}

/// Computes [`swap_output`].
pub fn find_swap_output(payments: &Vec<EsdtTokenPayment>, token: &TokenIdentifier) -> (r: BigUint)
    ensures
        r@ == swap_output(payments_view(payments@), token@),
{
    let ghost all = payments_view(payments@);
    let mut i: usize = 0;
    assert(all.skip(0) =~= all);
    while i < payments.len()
        invariant
            i <= payments@.len(),
            all == payments_view(payments@),
            swap_output(all, token@) == swap_output(all.skip(i as int), token@),
        decreases payments@.len() - i,
    {
        proof {
            assert(all.skip(i as int)[0] == payments@[i as int]@);
            assert(all.skip(i as int).skip(1) =~= all.skip(i + 1));
        }
        if payments[i].token_identifier == *token {
            return payments[i].amount.clone();
        }
        i += 1;
    }
    BigUint::zero()
}

/// The part of a swap's output that goes to the executor: `fee_bps` basis points of it,
/// rounded down.
pub open spec fn execution_fee(output: nat, fee_bps: nat) -> nat {
    (output * fee_bps) / 10000
}

/// The executor's fee is never more than the output, whatever fee the settings allow.
pub proof fn lemma_fee_at_most_output(output: nat, fee_bps: nat)
    by (nonlinear_arith)
    requires
        fee_bps <= 10000,
    ensures
        execution_fee(output, fee_bps) <= output,
{
}

/// How the output of a swap is handed out.
#[derive(Debug)]
pub struct Settlement {
    /// The executor's fee; none where it comes to zero.
    pub executor_fee: Option<Transfer>,
    /// The rest, for the user who placed the order.
    pub user_payment: Transfer,
}

/// What a [`Settlement`] stands for.
pub struct SettlementView {
    pub executor_fee: Option<TransferView>,
    pub user_payment: TransferView,
}

impl View for Settlement {
    type V = SettlementView;

    open spec fn view(&self) -> SettlementView {
        SettlementView {
            executor_fee: match self.executor_fee {
                Some(fee) => Some(fee@),
                None => None,
            },
            user_payment: self.user_payment@,
        }
    }
}

/// The contract's side of the exchange.
pub trait DexModule: StorageModule {
    /// The swap to send for `order` with the guardrail `min_amount_out`; none while no pair
    /// is set.
    fn build_swap_request(&self, order: &LimitOrder, min_amount_out: &BigUint) -> (r: Option<
        SwapRequest,
    >)
        ensures
            match r {
                Some(request) => self.model().xexchange_pair is Some && request@ == (
                SwapRequestView {
                    order_id: order.order_id,
                    pair: self.model().xexchange_pair.unwrap(),
                    from_token: order.from_token@,
                    from_amount: order.from_amount@,
                    to_token: order.to_token@,
                    min_amount_out: min_amount_out@,
                    gas_limit: SWAP_GAS_LIMIT,
                    callback_gas: SWAP_CALLBACK_GAS,
                }),
                None => self.model().xexchange_pair is None,
            },
    ;
}

} // verus!
