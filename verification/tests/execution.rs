use stellarnova::dex::{find_swap_output, SWAP_CALLBACK_GAS, SWAP_GAS_LIMIT};
use stellarnova::{
    Address, BigUint, Contract, Error, EsdtTokenPayment, Event, EventsModule, LimitOrdersModule,
    OrderStatus, Settlement, StellarNova, StorageModule, SwapRequest, SwapResult, TokenIdentifier,
};

fn address(tag: u8) -> Address {
    let mut bytes = [0u8; 32];
    bytes[0] = tag;
    bytes[31] = tag;
    Address { bytes }
}

fn owner() -> Address {
    address(1)
}

fn alice() -> Address {
    address(2)
}

fn executor() -> Address {
    address(4)
}

fn pair() -> Address {
    address(9)
}

fn token(name: &str) -> TokenIdentifier {
    TokenIdentifier::from_bytes(name.as_bytes().to_vec())
}

fn wegld() -> TokenIdentifier {
    token("WEGLD-bd4d79")
}

fn usdc() -> TokenIdentifier {
    token("USDC-c76f1f")
}

fn big(x: u64) -> BigUint {
    BigUint::from_u64(x)
}

fn payment(token: TokenIdentifier, amount: u64) -> EsdtTokenPayment {
    EsdtTokenPayment { token_identifier: token, token_nonce: 0, amount: big(amount) }
}

fn completed(amount: u64) -> SwapResult {
    SwapResult::Completed(vec![payment(usdc(), amount)])
}

fn failed() -> SwapResult {
    SwapResult::Failed(b"swap reverted".to_vec())
}

/// A contract with a pair, an executor, fee 10 bps, and one order of Alice:
/// 20 WEGLD for USDC at 50 / 1 with 5% slippage, so the minimum output is 950.
fn contract_with_order() -> Contract {
    let mut contract = Contract::init(owner(), 1000, vec![wegld(), usdc()]);
    contract.set_xexchange_pair(owner(), pair()).unwrap();
    contract.set_limit_order_executor(owner(), executor()).unwrap();
    contract
        .create_limit_order(alice(), 1_000, wegld(), big(20), usdc(), big(50), big(1), 500, 3600)
        .unwrap();
    contract.take_events();
    contract
}

fn begin(contract: &mut Contract, now: u64) -> Result<SwapRequest, Error> {
    contract.execute_limit_order(executor(), now, 1, big(50), big(1))
}

fn error_of<T>(result: Result<T, Error>) -> Error {
    match result {
        Err(e) => e,
        Ok(_) => panic!("the call was not refused"),
    }
}

fn settled(result: Result<Settlement, Error>) -> Settlement {
    match result {
        Ok(s) => s,
        Err(e) => panic!("the result was refused: {:?}", e),
    }
}

fn assert_untouched(contract: &mut Contract) {
    assert_eq!(contract.get_order(1).unwrap().status, OrderStatus::Pending);
    assert!(contract.pending_swap_executions(1).is_none());
    assert!(contract.take_events().is_empty());
}

#[test]
fn execute_returns_the_swap_request_and_keeps_the_order_pending() {
    let mut contract = contract_with_order();
    let request = begin(&mut contract, 2_000).unwrap();
    assert_eq!(request.order_id, 1);
    assert_eq!(request.pair, pair());
    assert_eq!(request.from_token, wegld());
    assert_eq!(request.from_amount, big(20));
    assert_eq!(request.to_token, usdc());
    assert_eq!(request.min_amount_out, big(950));
    assert_eq!(request.gas_limit, SWAP_GAS_LIMIT);
    assert_eq!(request.callback_gas, SWAP_CALLBACK_GAS);
    assert_eq!(request.gas_limit, 30_000_000);
    assert_eq!(request.callback_gas, 10_000_000);
    assert_eq!(contract.get_order(1).unwrap().status, OrderStatus::Pending);
    let context = contract.pending_swap_executions(1).unwrap();
    assert_eq!(context.order_id, 1);
    assert_eq!(context.user, alice());
    assert_eq!(context.executor, executor());
    assert_eq!(context.to_token, usdc());
    assert_eq!(context.min_amount_out, big(950));
    assert!(contract.take_events().is_empty());
}

#[test]
fn execute_accepts_a_price_at_or_better_than_the_target() {
    // At the target exactly: 100 / 2 == 50 / 1.
    let mut contract = contract_with_order();
    assert!(contract.execute_limit_order(executor(), 2_000, 1, big(100), big(2)).is_ok());
    // Better than the target: 49 / 1.
    let mut contract = contract_with_order();
    assert!(contract.execute_limit_order(executor(), 2_000, 1, big(49), big(1)).is_ok());
    // Zero over zero passes the cross-multiplication.
    let mut contract = contract_with_order();
    assert!(contract.execute_limit_order(executor(), 2_000, 1, big(0), big(0)).is_ok());
}

#[test]
fn execute_at_a_worse_price_fails_and_creates_no_context() {
    let mut contract = contract_with_order();
    let r = contract.execute_limit_order(executor(), 2_000, 1, big(51), big(1));
    assert_eq!(error_of(r), Error::PriceConditionNotMet);
    assert_untouched(&mut contract);
    // 501 / 10 is worse than 50 / 1 by a hair.
    let r = contract.execute_limit_order(executor(), 2_000, 1, big(501), big(10));
    assert_eq!(error_of(r), Error::PriceConditionNotMet);
    // Any price over zero is worse.
    let r = contract.execute_limit_order(executor(), 2_000, 1, big(1), big(0));
    assert_eq!(error_of(r), Error::PriceConditionNotMet);
    assert_untouched(&mut contract);
    // The order can still be executed at a good price.
    assert!(begin(&mut contract, 2_000).is_ok());
}

#[test]
fn execute_compares_prices_without_overflow() {
    let mut contract = Contract::init(owner(), 1000, vec![wegld(), usdc()]);
    contract.set_xexchange_pair(owner(), pair()).unwrap();
    let huge = BigUint::from_u128(u128::MAX);
    contract
        .create_limit_order(alice(), 0, wegld(), big(20), usdc(), huge.clone(), huge.clone(), 0, 10)
        .unwrap();
    let worse = huge.add(&big(1));
    let r = contract.execute_limit_order(owner(), 0, 1, worse, huge.clone());
    assert_eq!(error_of(r), Error::PriceConditionNotMet);
    let r = contract.execute_limit_order(owner(), 0, 1, huge.clone(), huge.clone());
    assert_eq!(r.unwrap().min_amount_out, big(20));
}

#[test]
fn execute_is_refused_while_paused() {
    let mut contract = contract_with_order();
    contract.set_paused(owner(), true).unwrap();
    contract.take_events();
    // Paused comes before the executor check.
    assert_eq!(
        error_of(contract.execute_limit_order(alice(), 2_000, 1, big(50), big(1))),
        Error::Paused
    );
    assert_eq!(error_of(begin(&mut contract, 2_000)), Error::Paused);
    assert_untouched(&mut contract);
}

#[test]
fn execute_is_refused_for_anyone_but_the_executor() {
    let mut contract = contract_with_order();
    for caller in [alice(), owner(), pair()] {
        let r = contract.execute_limit_order(caller, 2_000, 1, big(50), big(1));
        assert_eq!(error_of(r), Error::NotExecutor);
    }
    // The executor check comes before the order lookup.
    let r = contract.execute_limit_order(alice(), 2_000, 7, big(50), big(1));
    assert_eq!(error_of(r), Error::NotExecutor);
    assert_untouched(&mut contract);
}

#[test]
fn execute_is_refused_for_a_missing_order() {
    let mut contract = contract_with_order();
    for id in [0u64, 2, u64::MAX] {
        let r = contract.execute_limit_order(executor(), 2_000, id, big(50), big(1));
        assert_eq!(error_of(r), Error::OrderNotFound);
    }
    assert_untouched(&mut contract);
}

#[test]
fn execute_is_refused_for_an_order_that_is_not_pending() {
    let mut contract = contract_with_order();
    contract.cancel_limit_order(alice(), 1).unwrap();
    contract.take_events();
    assert_eq!(error_of(begin(&mut contract, 2_000)), Error::InvalidState);
    assert_eq!(contract.get_order(1).unwrap().status, OrderStatus::Cancelled);
    assert!(contract.pending_swap_executions(1).is_none());
}

#[test]
fn execute_is_refused_after_the_expiry_and_leaves_the_order_pending() {
    let mut contract = contract_with_order();
    // The order expires at 4_600: that moment is still in time.
    assert_eq!(error_of(begin(&mut contract, 4_601)), Error::Expired);
    assert_eq!(error_of(begin(&mut contract, u64::MAX)), Error::Expired);
    assert_untouched(&mut contract);
    // Expiry comes before the price.
    let r = contract.execute_limit_order(executor(), 4_601, 1, big(51), big(1));
    assert_eq!(error_of(r), Error::Expired);
    assert!(begin(&mut contract, 4_600).is_ok());
}

#[test]
fn execute_is_refused_while_a_swap_is_under_way() {
    let mut contract = contract_with_order();
    begin(&mut contract, 2_000).unwrap();
    assert_eq!(error_of(begin(&mut contract, 2_001)), Error::DuplicateExecution);
    // The context of the first request is still the one kept.
    assert_eq!(contract.pending_swap_executions(1).unwrap().executor, executor());
    // The price is checked before the swap under way.
    let r = contract.execute_limit_order(executor(), 2_001, 1, big(51), big(1));
    assert_eq!(error_of(r), Error::PriceConditionNotMet);
}

#[test]
fn execute_is_refused_without_a_pair() {
    let mut contract = Contract::init(owner(), 1000, vec![wegld(), usdc()]);
    contract
        .create_limit_order(alice(), 1_000, wegld(), big(20), usdc(), big(50), big(1), 500, 3600)
        .unwrap();
    contract.take_events();
    let r = contract.execute_limit_order(owner(), 2_000, 1, big(50), big(1));
    assert_eq!(error_of(r), Error::PairNotSet);
    assert_untouched(&mut contract);
}

#[test]
fn callback_pays_the_executor_one_and_the_user_the_rest_of_a_thousand() {
    let mut contract = contract_with_order();
    assert_eq!(contract.execution_fee_bps(), 10);
    begin(&mut contract, 2_000).unwrap();
    let settlement = settled(contract.swap_callback(2_050, 1, completed(1000)));
    let fee = settlement.executor_fee.unwrap();
    assert_eq!(fee.to, executor());
    assert_eq!(fee.token, usdc());
    assert_eq!(fee.amount, big(1));
    assert_eq!(settlement.user_payment.to, alice());
    assert_eq!(settlement.user_payment.token, usdc());
    assert_eq!(settlement.user_payment.amount, big(999));
    assert_eq!(contract.get_order(1).unwrap().status, OrderStatus::Executed);
    assert!(contract.pending_swap_executions(1).is_none());
    assert!(contract.get_pending_orders().is_empty());
    let events = contract.take_events();
    assert_eq!(events.len(), 1);
    match &events[0] {
        Event::LimitOrderExecuted {
            order_id,
            user,
            from_token,
            from_amount,
            to_token,
            to_amount,
            timestamp,
        } => {
            assert_eq!(*order_id, 1);
            assert_eq!(*user, alice());
            assert_eq!(*from_token, wegld());
            assert_eq!(*from_amount, big(20));
            assert_eq!(*to_token, usdc());
            assert_eq!(*to_amount, big(999));
            assert_eq!(*timestamp, 2_050);
        }
        other => panic!("unexpected event {:?}", other),
    }
    // A second result for the same order finds no context.
    assert_eq!(error_of(contract.swap_callback(2_051, 1, completed(1000))), Error::ContextNotFound);
    assert_eq!(error_of(contract.swap_callback(2_052, 1, failed())), Error::ContextNotFound);
    assert_eq!(contract.get_order(1).unwrap().status, OrderStatus::Executed);
    assert!(contract.take_events().is_empty());
}

#[test]
fn callback_skips_a_fee_of_zero() {
    let mut contract = contract_with_order();
    begin(&mut contract, 2_000).unwrap();
    // 999 * 10 / 10000 rounds down to zero.
    let settlement = settled(contract.swap_callback(2_050, 1, completed(999)));
    assert!(settlement.executor_fee.is_none());
    assert_eq!(settlement.user_payment.amount, big(999));
}

#[test]
fn callback_with_no_fee_set_pays_all_to_the_user() {
    let mut contract = contract_with_order();
    contract.set_execution_fee_bps(owner(), 0).unwrap();
    begin(&mut contract, 2_000).unwrap();
    let settlement = settled(contract.swap_callback(2_050, 1, completed(123_456)));
    assert!(settlement.executor_fee.is_none());
    assert_eq!(settlement.user_payment.amount, big(123_456));
}

#[test]
fn callback_uses_the_fee_at_its_cap() {
    let mut contract = contract_with_order();
    contract.set_execution_fee_bps(owner(), 500).unwrap();
    begin(&mut contract, 2_000).unwrap();
    let settlement = settled(contract.swap_callback(2_050, 1, completed(12_345)));
    // 12_345 * 500 / 10000 = 617.25, rounded down.
    assert_eq!(settlement.executor_fee.unwrap().amount, big(617));
    assert_eq!(settlement.user_payment.amount, big(11_728));
}

#[test]
fn callback_accepts_the_minimum_output_exactly() {
    let mut contract = contract_with_order();
    begin(&mut contract, 2_000).unwrap();
    let settlement = settled(contract.swap_callback(2_050, 1, completed(950)));
    assert_eq!(settlement.user_payment.amount, big(950));
}

#[test]
fn callback_below_the_minimum_output_fails_and_leaves_the_order_pending() {
    let mut contract = contract_with_order();
    begin(&mut contract, 2_000).unwrap();
    assert_eq!(
        error_of(contract.swap_callback(2_050, 1, completed(949))),
        Error::SlippageViolation
    );
    assert_untouched(&mut contract);
    // The context was used up: the same result again finds none.
    assert_eq!(error_of(contract.swap_callback(2_050, 1, completed(949))), Error::ContextNotFound);
}

#[test]
fn callback_counts_only_the_token_asked_for() {
    let mut contract = contract_with_order();
    begin(&mut contract, 2_000).unwrap();
    let result = SwapResult::Completed(vec![payment(wegld(), 5_000)]);
    assert_eq!(error_of(contract.swap_callback(2_050, 1, result)), Error::SlippageViolation);
    let mut contract = contract_with_order();
    begin(&mut contract, 2_000).unwrap();
    let result = SwapResult::Completed(vec![]);
    assert_eq!(error_of(contract.swap_callback(2_050, 1, result)), Error::SlippageViolation);
    let mut contract = contract_with_order();
    begin(&mut contract, 2_000).unwrap();
    let result = SwapResult::Completed(vec![
        payment(wegld(), 3),
        payment(usdc(), 2_000),
        payment(usdc(), 7_000),
    ]);
    let settlement = settled(contract.swap_callback(2_050, 1, result));
    // The first payment in the token counts: 2000, fee 2.
    assert_eq!(settlement.executor_fee.unwrap().amount, big(2));
    assert_eq!(settlement.user_payment.amount, big(1_998));
}

#[test]
fn find_swap_output_takes_the_first_payment_in_the_token() {
    let payments = vec![payment(wegld(), 3), payment(usdc(), 10), payment(usdc(), 20)];
    assert_eq!(find_swap_output(&payments, &usdc()), big(10));
    assert_eq!(find_swap_output(&payments, &wegld()), big(3));
    assert_eq!(find_swap_output(&payments, &token("MEX-455c57")), big(0));
    assert_eq!(find_swap_output(&Vec::new(), &usdc()), big(0));
}

#[test]
fn callback_without_a_context_fails_and_changes_nothing() {
    let mut contract = contract_with_order();
    assert_eq!(error_of(contract.swap_callback(2_050, 1, completed(1000))), Error::ContextNotFound);
    assert_eq!(error_of(contract.swap_callback(2_050, 2, completed(1000))), Error::ContextNotFound);
    assert_eq!(error_of(contract.swap_callback(2_050, 0, failed())), Error::ContextNotFound);
    assert_untouched(&mut contract);
}

#[test]
fn failed_swap_leaves_the_order_pending_and_permits_a_new_execution() {
    let mut contract = contract_with_order();
    begin(&mut contract, 2_000).unwrap();
    assert_eq!(error_of(contract.swap_callback(2_050, 1, failed())), Error::SwapFailed);
    assert_untouched(&mut contract);
    assert_eq!(contract.get_order(1).unwrap().from_amount, big(20));
    // A new execution creates a fresh context, here by another executor.
    contract.set_limit_order_executor(owner(), owner()).unwrap();
    let request = contract.execute_limit_order(owner(), 2_100, 1, big(50), big(1)).unwrap();
    assert_eq!(request.min_amount_out, big(950));
    assert_eq!(contract.pending_swap_executions(1).unwrap().executor, owner());
    let settlement = settled(contract.swap_callback(2_150, 1, completed(1000)));
    assert_eq!(settlement.executor_fee.unwrap().to, owner());
    assert_eq!(contract.get_order(1).unwrap().status, OrderStatus::Executed);
}

#[test]
fn failed_swap_leaves_the_order_open_to_cancellation() {
    let mut contract = contract_with_order();
    begin(&mut contract, 2_000).unwrap();
    assert_eq!(error_of(contract.swap_callback(2_050, 1, failed())), Error::SwapFailed);
    let refund = contract.cancel_limit_order(alice(), 1).unwrap();
    assert_eq!(refund.amount, big(20));
}

#[test]
fn cancel_is_permitted_while_a_swap_is_under_way() {
    let mut contract = contract_with_order();
    begin(&mut contract, 2_000).unwrap();
    let refund = contract.cancel_limit_order(alice(), 1).unwrap();
    assert_eq!(refund.to, alice());
    assert_eq!(refund.token, wegld());
    assert_eq!(refund.amount, big(20));
    assert_eq!(contract.get_order(1).unwrap().status, OrderStatus::Cancelled);
    // The swap is still noted as under way until its result comes in.
    assert!(contract.pending_swap_executions(1).is_some());
}

#[test]
fn result_for_a_cancelled_order_pays_nothing_and_leaves_it_cancelled() {
    let mut contract = contract_with_order();
    begin(&mut contract, 2_000).unwrap();
    contract.cancel_limit_order(alice(), 1).unwrap();
    contract.take_events();
    assert_eq!(error_of(contract.swap_callback(2_050, 1, completed(1000))), Error::InvalidState);
    assert_eq!(contract.get_order(1).unwrap().status, OrderStatus::Cancelled);
    assert!(contract.pending_swap_executions(1).is_none());
    assert!(contract.take_events().is_empty());
    assert_eq!(error_of(contract.swap_callback(2_051, 1, completed(1000))), Error::ContextNotFound);
}

#[test]
fn cancel_after_price_moves_returns_the_amount_handed_over() {
    let mut contract = contract_with_order();
    // The price moves away, comes back, a swap fails: none of it touches the amount.
    let r = contract.execute_limit_order(executor(), 1_500, 1, big(80), big(1));
    assert_eq!(error_of(r), Error::PriceConditionNotMet);
    begin(&mut contract, 2_000).unwrap();
    assert_eq!(error_of(contract.swap_callback(2_050, 1, failed())), Error::SwapFailed);
    let r = contract.execute_limit_order(executor(), 2_100, 1, big(1_000), big(3));
    assert_eq!(error_of(r), Error::PriceConditionNotMet);
    contract.set_execution_fee_bps(owner(), 500).unwrap();
    let refund = contract.cancel_limit_order(alice(), 1).unwrap();
    assert_eq!(refund.to, alice());
    assert_eq!(refund.token, wegld());
    assert_eq!(refund.amount, big(20));
}

#[test]
fn executed_order_can_be_neither_cancelled_nor_executed_again() {
    let mut contract = contract_with_order();
    begin(&mut contract, 2_000).unwrap();
    settled(contract.swap_callback(2_050, 1, completed(1000)));
    assert_eq!(error_of(contract.cancel_limit_order(alice(), 1)), Error::InvalidState);
    assert_eq!(error_of(begin(&mut contract, 2_100)), Error::InvalidState);
    assert_eq!(contract.get_order(1).unwrap().status, OrderStatus::Executed);
}

#[test]
fn swaps_of_different_orders_do_not_mix() {
    let mut contract = contract_with_order();
    contract
        .create_limit_order(address(5), 1_000, usdc(), big(500), wegld(), big(1), big(50), 0, 3600)
        .unwrap();
    begin(&mut contract, 2_000).unwrap();
    let second = contract.execute_limit_order(executor(), 2_000, 2, big(1), big(50)).unwrap();
    assert_eq!(second.order_id, 2);
    assert_eq!(second.from_token, usdc());
    assert_eq!(second.min_amount_out, big(10));
    let result = SwapResult::Completed(vec![payment(wegld(), 10)]);
    let settlement = settled(contract.swap_callback(2_050, 2, result));
    assert_eq!(settlement.user_payment.to, address(5));
    assert_eq!(settlement.user_payment.token, wegld());
    assert_eq!(settlement.user_payment.amount, big(10));
    assert_eq!(contract.get_order(1).unwrap().status, OrderStatus::Pending);
    assert!(contract.pending_swap_executions(1).is_some());
    assert_eq!(contract.get_order(2).unwrap().status, OrderStatus::Executed);
}
