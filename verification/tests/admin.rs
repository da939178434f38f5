use stellarnova::{
    Address, Contract, Error, Event, EventsModule, LimitOrdersModule, StellarNova, StorageModule,
    TokenIdentifier,
};

fn address(tag: u8) -> Address {
    let mut bytes = [0u8; 32];
    bytes[0] = tag;
    Address { bytes }
}

fn owner() -> Address {
    address(1)
}

fn stranger() -> Address {
    address(2)
}

fn token(name: &str) -> TokenIdentifier {
    TokenIdentifier::from_bytes(name.as_bytes().to_vec())
}

#[test]
fn init_whitelists_each_token_once() {
    let contract = Contract::init(
        owner(),
        300,
        vec![token("A"), token("B"), token("A"), token("C"), token("B")],
    );
    assert_eq!(contract.whitelisted_tokens(), vec![token("A"), token("B"), token("C")]);
    assert_eq!(contract.max_slippage(), 300);
    assert_eq!(contract.owner(), owner());
    assert_eq!(contract.limit_order_executor(), owner());
    assert_eq!(contract.next_order_id(), 1);
    assert!(contract.is_token_whitelisted(token("C")));
    assert!(!contract.is_token_whitelisted(token("D")));
    assert!(!contract.is_token_whitelisted(token("")));
}

#[test]
fn init_without_tokens() {
    let mut contract = Contract::init(owner(), 0, vec![]);
    assert!(contract.whitelisted_tokens().is_empty());
    assert!(contract.take_events().is_empty());
}

#[test]
fn whitelist_token_adds_at_the_end_and_tells_of_it() {
    let mut contract = Contract::init(owner(), 300, vec![token("A")]);
    assert_eq!(contract.whitelist_token(owner(), token("B")), Ok(()));
    assert_eq!(contract.whitelisted_tokens(), vec![token("A"), token("B")]);
    let events = contract.take_events();
    assert_eq!(events.len(), 1);
    match &events[0] {
        Event::TokenWhitelisted { token: t } => assert_eq!(*t, token("B")),
        other => panic!("unexpected event {:?}", other),
    }
}

#[test]
fn whitelist_token_refuses_a_token_that_is_there() {
    let mut contract = Contract::init(owner(), 300, vec![token("A")]);
    assert_eq!(contract.whitelist_token(owner(), token("A")), Err(Error::AlreadyWhitelisted));
    assert_eq!(contract.whitelisted_tokens(), vec![token("A")]);
    assert!(contract.take_events().is_empty());
}

#[test]
fn remove_token_moves_the_last_token_into_the_gap() {
    let mut contract =
        Contract::init(owner(), 300, vec![token("A"), token("B"), token("C"), token("D")]);
    assert_eq!(contract.remove_token(owner(), token("B")), Ok(()));
    assert_eq!(contract.whitelisted_tokens(), vec![token("A"), token("D"), token("C")]);
    assert!(!contract.is_token_whitelisted(token("B")));
    assert_eq!(contract.remove_token(owner(), token("C")), Ok(()));
    assert_eq!(contract.whitelisted_tokens(), vec![token("A"), token("D")]);
    let events = contract.take_events();
    assert_eq!(events.len(), 2);
    match &events[0] {
        Event::TokenRemoved { token: t } => assert_eq!(*t, token("B")),
        other => panic!("unexpected event {:?}", other),
    }
}

#[test]
fn remove_token_refuses_a_token_that_is_not_there() {
    let mut contract = Contract::init(owner(), 300, vec![token("A")]);
    assert_eq!(contract.remove_token(owner(), token("B")), Err(Error::NotWhitelisted));
    assert_eq!(contract.whitelisted_tokens(), vec![token("A")]);
    assert!(contract.take_events().is_empty());
}

#[test]
fn settings_are_for_the_owner_only() {
    let mut contract = Contract::init(owner(), 300, vec![token("A")]);
    let denied = Err(Error::NotContractOwner);
    assert_eq!(contract.whitelist_token(stranger(), token("B")), denied);
    assert_eq!(contract.whitelist_token(stranger(), token("A")), denied);
    assert_eq!(contract.remove_token(stranger(), token("A")), denied);
    assert_eq!(contract.remove_token(stranger(), token("B")), denied);
    assert_eq!(contract.set_paused(stranger(), true), denied);
    assert_eq!(contract.set_max_slippage(stranger(), 1), denied);
    assert_eq!(contract.set_xexchange_pair(stranger(), stranger()), denied);
    assert_eq!(contract.set_limit_order_executor(stranger(), stranger()), denied);
    assert_eq!(contract.set_execution_fee_bps(stranger(), 1), denied);
    assert_eq!(contract.set_execution_fee_bps(stranger(), 501), denied);
    assert_eq!(contract.whitelisted_tokens(), vec![token("A")]);
    assert!(!contract.paused());
    assert_eq!(contract.max_slippage(), 300);
    assert_eq!(contract.xexchange_pair(), None);
    assert_eq!(contract.limit_order_executor(), owner());
    assert_eq!(contract.execution_fee_bps(), 10);
    assert!(contract.take_events().is_empty());
}

#[test]
fn owner_changes_the_settings() {
    let mut contract = Contract::init(owner(), 300, vec![token("A")]);
    assert_eq!(contract.set_paused(owner(), true), Ok(()));
    assert!(contract.paused());
    assert_eq!(contract.set_max_slippage(owner(), 20_000), Ok(()));
    assert_eq!(contract.max_slippage(), 20_000);
    assert_eq!(contract.set_xexchange_pair(owner(), address(9)), Ok(()));
    assert_eq!(contract.xexchange_pair(), Some(address(9)));
    assert_eq!(contract.set_limit_order_executor(owner(), address(4)), Ok(()));
    assert_eq!(contract.limit_order_executor(), address(4));
    assert_eq!(contract.set_execution_fee_bps(owner(), 500), Ok(()));
    assert_eq!(contract.execution_fee_bps(), 500);
    let events = contract.take_events();
    assert_eq!(events.len(), 1);
    match &events[0] {
        Event::PauseStateChanged { paused } => assert!(*paused),
        other => panic!("unexpected event {:?}", other),
    }
}

#[test]
fn execution_fee_is_capped_at_five_percent() {
    let mut contract = Contract::init(owner(), 300, vec![]);
    assert_eq!(contract.set_execution_fee_bps(owner(), 501), Err(Error::FeeTooHigh));
    assert_eq!(contract.set_execution_fee_bps(owner(), u64::MAX), Err(Error::FeeTooHigh));
    assert_eq!(contract.execution_fee_bps(), 10);
    assert_eq!(contract.set_execution_fee_bps(owner(), 0), Ok(()));
    assert_eq!(contract.execution_fee_bps(), 0);
}

#[test]
fn upgrade_changes_nothing() {
    let mut contract = Contract::init(owner(), 300, vec![token("A"), token("B")]);
    contract.set_xexchange_pair(owner(), address(9)).unwrap();
    contract.upgrade();
    assert_eq!(contract.whitelisted_tokens(), vec![token("A"), token("B")]);
    assert_eq!(contract.xexchange_pair(), Some(address(9)));
    assert_eq!(contract.owner(), owner());
    assert!(contract.take_events().is_empty());
}

#[test]
fn event_log_takes_every_kind_of_event_in_order() {
    let mut contract = Contract::init(owner(), 300, vec![]);
    let amount = stellarnova::BigUint::from_u64(5);
    contract.token_whitelisted_event(&token("A"));
    contract.token_removed_event(&token("A"));
    contract.pause_state_changed_event(false);
    contract.limit_order_expired_event(3, &stranger(), &token("A"), &amount);
    contract.limit_order_cancelled_event(4, &stranger(), &token("B"), &amount);
    let events = contract.take_events();
    assert_eq!(events.len(), 5);
    assert!(matches!(events[0], Event::TokenWhitelisted { .. }));
    assert!(matches!(events[1], Event::TokenRemoved { .. }));
    assert!(matches!(events[2], Event::PauseStateChanged { paused: false }));
    match &events[3] {
        Event::LimitOrderExpired { order_id, user, token: t, amount: a } => {
            assert_eq!(*order_id, 3);
            assert_eq!(*user, stranger());
            assert_eq!(*t, token("A"));
            assert_eq!(*a, amount);
        }
        other => panic!("unexpected event {:?}", other),
    }
    assert!(matches!(events[4], Event::LimitOrderCancelled { order_id: 4, .. }));
    assert!(contract.take_events().is_empty());
}

#[test]
fn error_messages_are_distinct_and_not_empty() {
    let all = [
        Error::Paused,
        Error::NotContractOwner,
        Error::AlreadyWhitelisted,
        Error::NotWhitelisted,
        Error::FeeTooHigh,
        Error::FromTokenNotWhitelisted,
        Error::ToTokenNotWhitelisted,
        Error::SameToken,
        Error::InvalidAmount,
        Error::InvalidPriceNumerator,
        Error::InvalidPriceDenominator,
        Error::SlippageTooHigh,
        Error::ExpiryOverflow,
        Error::OrderIdsExhausted,
        Error::NotExecutor,
        Error::OrderNotFound,
        Error::NotOwner,
        Error::InvalidState,
        Error::Expired,
        Error::PriceConditionNotMet,
        Error::DuplicateExecution,
        Error::PairNotSet,
        Error::ContextNotFound,
        Error::SwapFailed,
        Error::SlippageViolation,
    ];
    for (i, a) in all.iter().enumerate() {
        assert!(!a.message().is_empty());
        for b in all.iter().skip(i + 1) {
            assert_ne!(a.message(), b.message());
        }
    }
    assert_eq!(Error::Paused.message(), "Contract is paused");
    assert_eq!(Error::NotOwner.message(), "Not your order");
    assert_eq!(Error::InvalidState.message(), "Order is not pending");
    assert_eq!(Error::ContextNotFound.message(), "Execution context not found");
    assert_eq!(Error::SlippageViolation.message(), "Swap output below minimum");
}
