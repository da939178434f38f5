//! The record of what the contract did, for whoever watches it.

use crate::biguint::BigUint;
use crate::contract::ContractBase;
use crate::model::ContractModel;
use crate::types::{Address, TokenIdentifier};
use vstd::prelude::*;

verus! {

/// One entry of the event log.
#[derive(Debug)]
pub enum Event {
    TokenWhitelisted { token: TokenIdentifier },
    TokenRemoved { token: TokenIdentifier },
    PauseStateChanged { paused: bool },
    LimitOrderCreated {
        order_id: u64,
        user: Address,
        from_token: TokenIdentifier,
        from_amount: BigUint,
        to_token: TokenIdentifier,
        target_price_num: BigUint,
        target_price_denom: BigUint,
        expires_at: u64,
    },
    LimitOrderExecuted {
        order_id: u64,
        user: Address,
        from_token: TokenIdentifier,
        from_amount: BigUint,
        to_token: TokenIdentifier,
        to_amount: BigUint,
        timestamp: u64,
    },
    LimitOrderCancelled { order_id: u64, user: Address, token: TokenIdentifier, amount: BigUint },
    LimitOrderExpired { order_id: u64, user: Address, token: TokenIdentifier, amount: BigUint },
}

/// What an [`Event`] stands for.
pub enum EventView {
    TokenWhitelisted { token: Seq<u8> },
    TokenRemoved { token: Seq<u8> },
    PauseStateChanged { paused: bool },
    LimitOrderCreated {
        order_id: u64,
        user: Address,
        from_token: Seq<u8>,
        from_amount: nat,
        to_token: Seq<u8>,
        target_price_num: nat,
        target_price_denom: nat,
        expires_at: u64,
    },
    LimitOrderExecuted {
        order_id: u64,
        user: Address,
        from_token: Seq<u8>,
        from_amount: nat,
        to_token: Seq<u8>,
        to_amount: nat,
        timestamp: u64,
    },
    LimitOrderCancelled { order_id: u64, user: Address, token: Seq<u8>, amount: nat },
    LimitOrderExpired { order_id: u64, user: Address, token: Seq<u8>, amount: nat },
}

impl View for Event {
    type V = EventView;

    open spec fn view(&self) -> EventView {
        match *self {
            Event::TokenWhitelisted { token } => EventView::TokenWhitelisted { token: token@ },
            Event::TokenRemoved { token } => EventView::TokenRemoved { token: token@ },
            Event::PauseStateChanged { paused } => EventView::PauseStateChanged { paused },
            Event::LimitOrderCreated {
                order_id,
                user,
                from_token,
                from_amount,
                to_token,
                target_price_num,
                target_price_denom,
                expires_at,
            } => EventView::LimitOrderCreated {
                order_id,
                user,
                from_token: from_token@,
                from_amount: from_amount@,
                to_token: to_token@,
                target_price_num: target_price_num@,
                target_price_denom: target_price_denom@,
                expires_at,
            },
            Event::LimitOrderExecuted {
                order_id,
                user,
                from_token,
                from_amount,
                to_token,
                to_amount,
                timestamp,
            } => EventView::LimitOrderExecuted {
                order_id,
                user,
                from_token: from_token@,
                from_amount: from_amount@,
                to_token: to_token@,
                to_amount: to_amount@,
                timestamp,
            },
            Event::LimitOrderCancelled { order_id, user, token, amount } => {
                EventView::LimitOrderCancelled { order_id, user, token: token@, amount: amount@ }
            },
            Event::LimitOrderExpired { order_id, user, token, amount } => {
                EventView::LimitOrderExpired { order_id, user, token: token@, amount: amount@ }
            },
        }
    }
}

/// What a log of events stands for.
pub open spec fn events_view(events: Seq<Event>) -> Seq<EventView> {
    events.map_values(|e: Event| e@)
}

/// The event log of the contract. Each method adds one entry and changes nothing else.
pub trait EventsModule: ContractBase {
    /// Notes that `token` was whitelisted.
    fn token_whitelisted_event(&mut self, token: &TokenIdentifier)
        requires
            old(self).inv(),
        ensures
            final(self).inv(),
            final(self).model() == old(self).model().emit(
                EventView::TokenWhitelisted { token: token@ },
            ),
    ;

    /// Notes that `token` was taken off the whitelist.
    fn token_removed_event(&mut self, token: &TokenIdentifier)
        requires
            old(self).inv(),
        ensures
            final(self).inv(),
            final(self).model() == old(self).model().emit(
                EventView::TokenRemoved { token: token@ },
            ),
    ;

    /// Notes that the contract was paused or resumed.
    fn pause_state_changed_event(&mut self, paused: bool)
        requires
            old(self).inv(),
        ensures
            final(self).inv(),
            final(self).model() == old(self).model().emit(EventView::PauseStateChanged { paused }),
    ;

    /// Notes that an order was created.
    fn limit_order_created_event(
        &mut self,
        order_id: u64,
        user: &Address,
        from_token: &TokenIdentifier,
        from_amount: &BigUint,
        to_token: &TokenIdentifier,
        target_price_num: &BigUint,
        target_price_denom: &BigUint,
        expires_at: u64,
    )
        requires
            old(self).inv(),
        ensures
            final(self).inv(),
            final(self).model() == old(self).model().emit(
                EventView::LimitOrderCreated {
                    order_id,
                    user: *user,
                    from_token: from_token@,
                    from_amount: from_amount@,
                    to_token: to_token@,
                    target_price_num: target_price_num@,
                    target_price_denom: target_price_denom@,
                    expires_at,
                },
            ),
    ;

    /// Notes that an order was executed.
    fn limit_order_executed_event(
        &mut self,
        order_id: u64,
        user: &Address,
        from_token: &TokenIdentifier,
        from_amount: &BigUint,
        to_token: &TokenIdentifier,
        to_amount: &BigUint,
        timestamp: u64,
    )
        requires
            old(self).inv(),
        ensures
            final(self).inv(),
            final(self).model() == old(self).model().emit(
                EventView::LimitOrderExecuted {
                    order_id,
                    user: *user,
                    from_token: from_token@,
                    from_amount: from_amount@,
                    to_token: to_token@,
                    to_amount: to_amount@,
                    timestamp,
                },
            ),
    ;

    /// Notes that an order was cancelled.
    fn limit_order_cancelled_event(
        &mut self,
        order_id: u64,
        user: &Address,
        token: &TokenIdentifier,
        amount: &BigUint,
    )
        requires
            old(self).inv(),
        ensures
            final(self).inv(),
            final(self).model() == old(self).model().emit(
                EventView::LimitOrderCancelled {
                    order_id,
                    user: *user,
                    token: token@,
                    amount: amount@,
                },
            ),
    ;

    /// Notes that an order expired.
    fn limit_order_expired_event(
        &mut self,
        order_id: u64,
        user: &Address,
        token: &TokenIdentifier,
        amount: &BigUint,
    )
        requires
            old(self).inv(),
        ensures
            final(self).inv(),
            final(self).model() == old(self).model().emit(
                EventView::LimitOrderExpired {
                    order_id,
                    user: *user,
                    token: token@,
                    amount: amount@,
                },
            ),
    ;

    /// Hands out the entries of the log and empties it.
    fn take_events(&mut self) -> (r: Vec<Event>)
        requires
            old(self).inv(),
        ensures
            final(self).inv(),
            events_view(r@) == old(self).model().events,
            final(self).model() == (ContractModel { events: Seq::empty(), ..old(self).model() }),
    ;
}

} // verus!
