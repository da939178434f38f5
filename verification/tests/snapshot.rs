use stellarnova::{
    Address, BigUint, Contract, EsdtTokenPayment, EventsModule, LimitOrdersModule, OrderStatus,
    Snapshot, StellarNova, StorageModule, SwapExecutionContext, SwapResult, TokenIdentifier,
};

fn address(tag: u8) -> Address {
    Address { bytes: [tag; 32] }
}

fn token(name: &str) -> TokenIdentifier {
    TokenIdentifier::from_bytes(name.as_bytes().to_vec())
}

fn big(x: u64) -> BigUint {
    BigUint::from_u64(x)
}

/// Owner 1, executor 4, pair 9; three orders of users 2 and 3; order 1 has a swap under
/// way, order 2 is cancelled.
fn busy_contract() -> Contract {
    let mut contract = Contract::init(address(1), 1000, vec![token("A"), token("B")]);
    contract.set_xexchange_pair(address(1), address(9)).unwrap();
    contract.set_limit_order_executor(address(1), address(4)).unwrap();
    contract.set_execution_fee_bps(address(1), 25).unwrap();
    contract
        .create_limit_order(
            address(2), 100, token("A"), big(20), token("B"), big(50), big(1), 500, 60,
        )
        .unwrap();
    contract
        .create_limit_order(address(3), 101, token("B"), big(7), token("A"), big(1), big(3), 0, 60)
        .unwrap();
    contract
        .create_limit_order(address(2), 102, token("A"), big(9), token("B"), big(2), big(1), 10, 60)
        .unwrap();
    contract.execute_limit_order(address(4), 110, 1, big(50), big(1)).unwrap();
    contract.cancel_limit_order(address(3), 2).unwrap();
    contract.take_events();
    contract
}

fn restored(snapshot: Snapshot) -> Contract {
    match Contract::restore(snapshot) {
        Some(contract) => contract,
        None => panic!("the snapshot was refused"),
    }
}

#[test]
fn snapshot_holds_all_but_the_events() {
    let mut contract = busy_contract();
    contract.pause_state_changed_event(false);
    let snapshot = contract.snapshot();
    assert_eq!(snapshot.owner, address(1));
    assert!(!snapshot.paused);
    assert_eq!(snapshot.max_slippage, 1000);
    assert_eq!(snapshot.execution_fee_bps, 25);
    assert_eq!(snapshot.xexchange_pair, Some(address(9)));
    assert_eq!(snapshot.limit_order_executor, address(4));
    assert_eq!(snapshot.whitelisted_tokens, vec![token("A"), token("B")]);
    let ids: Vec<u64> = snapshot.orders.iter().map(|o| o.order_id).collect();
    assert_eq!(ids, vec![1, 2, 3]);
    assert_eq!(snapshot.orders[1].status, OrderStatus::Cancelled);
    assert_eq!(snapshot.orders[2].from_amount, big(9));
    assert_eq!(snapshot.pending_swaps.len(), 1);
    assert_eq!(snapshot.pending_swaps[0].order_id, 1);
    assert_eq!(snapshot.pending_swaps[0].min_amount_out, big(950));
    // Taking a snapshot leaves the contract, its event log included, as it was.
    assert_eq!(contract.take_events().len(), 1);
}

#[test]
fn restore_goes_on_where_the_snapshot_was_taken() {
    let mut contract = restored(busy_contract().snapshot());
    assert!(contract.take_events().is_empty());
    assert_eq!(contract.owner(), address(1));
    assert_eq!(contract.limit_order_executor(), address(4));
    assert_eq!(contract.execution_fee_bps(), 25);
    assert_eq!(contract.next_order_id(), 4);
    assert_eq!(contract.get_order(2).unwrap().status, OrderStatus::Cancelled);
    let of_two: Vec<u64> =
        contract.get_user_orders(address(2)).iter().map(|o| o.order_id).collect();
    assert_eq!(of_two, vec![1, 3]);
    let pending: Vec<u64> = contract.get_pending_orders().iter().map(|o| o.order_id).collect();
    assert_eq!(pending, vec![1, 3]);
    // The swap under way is settled by the contract read back.
    let result = SwapResult::Completed(vec![EsdtTokenPayment {
        token_identifier: token("B"),
        token_nonce: 0,
        amount: big(4000),
    }]);
    let settlement = contract.swap_callback(120, 1, result).unwrap();
    assert_eq!(settlement.executor_fee.unwrap().amount, big(10));
    assert_eq!(settlement.user_payment.amount, big(3990));
    assert_eq!(contract.get_order(1).unwrap().status, OrderStatus::Executed);
    // A second round trip gives the same again.
    let again = restored(contract.snapshot());
    assert_eq!(again.get_order(1).unwrap().status, OrderStatus::Executed);
    assert!(again.pending_swap_executions(1).is_none());
}

#[test]
fn restore_of_an_empty_contract() {
    let snapshot = Contract::init(address(1), 5, vec![]).snapshot();
    assert!(snapshot.orders.is_empty());
    assert!(snapshot.pending_swaps.is_empty());
    let contract = restored(snapshot);
    assert_eq!(contract.max_slippage(), 5);
    assert_eq!(contract.next_order_id(), 1);
}

fn refused(change: fn(&mut Snapshot)) -> bool {
    let mut snapshot = busy_contract().snapshot();
    change(&mut snapshot);
    Contract::restore(snapshot).is_none()
}

#[test]
fn restore_refuses_a_fee_above_the_cap() {
    assert!(refused(|s| s.execution_fee_bps = 501));
    assert!(!refused(|s| s.execution_fee_bps = 500));
}

#[test]
fn restore_refuses_a_token_listed_twice() {
    assert!(refused(|s| s.whitelisted_tokens.push(token("A"))));
    assert!(!refused(|s| s.whitelisted_tokens.push(token("C"))));
}

#[test]
fn restore_refuses_orders_out_of_sequence() {
    assert!(refused(|s| s.orders[1].order_id = 3));
    assert!(refused(|s| s.orders[0].order_id = 0));
    assert!(refused(|s| {
        s.orders.remove(1);
    }));
    assert!(refused(|s| s.orders.swap(1, 2)));
}

#[test]
fn restore_refuses_an_order_that_is_not_well_formed() {
    assert!(refused(|s| s.orders[2].from_amount = BigUint::zero()));
    assert!(refused(|s| s.orders[2].target_price_numerator = BigUint::zero()));
    assert!(refused(|s| s.orders[2].target_price_denominator = BigUint::zero()));
    assert!(refused(|s| s.orders[2].slippage_bp = 10_001));
    assert!(refused(|s| s.orders[2].to_token = token("A")));
    assert!(refused(|s| s.orders[2].expires_at = 101));
    assert!(!refused(|s| s.orders[2].slippage_bp = 10_000));
    assert!(!refused(|s| s.orders[2].status = OrderStatus::Expired));
}

#[test]
fn restore_refuses_a_swap_that_does_not_fit_its_order() {
    assert!(refused(|s| s.pending_swaps[0].order_id = 4));
    assert!(refused(|s| s.pending_swaps[0].order_id = 0));
    assert!(refused(|s| s.pending_swaps[0].order_id = 3));
    assert!(refused(|s| s.pending_swaps[0].user = address(3)));
    assert!(refused(|s| s.pending_swaps[0].to_token = token("A")));
    assert!(refused(|s| s.pending_swaps[0].min_amount_out = BigUint::from_u64(951)));
    assert!(!refused(|s| s.pending_swaps[0].executor = address(7)));
}

#[test]
fn restore_refuses_two_swaps_for_one_order() {
    assert!(refused(|s| {
        let twin = SwapExecutionContext {
            order_id: 1,
            user: s.pending_swaps[0].user,
            executor: s.pending_swaps[0].executor,
            to_token: token("B"),
            min_amount_out: BigUint::from_u64(950),
        };
        s.pending_swaps.push(twin);
    }));
    // A swap for the cancelled order is kept: its result is still owed.
    assert!(!refused(|s| {
        let other = SwapExecutionContext {
            order_id: 2,
            user: address(3),
            executor: address(4),
            to_token: token("A"),
            min_amount_out: BigUint::from_u64(2),
        };
        s.pending_swaps.push(other);
    }));
}
