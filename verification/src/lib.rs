//! Limit orders against a pair of fungible tokens, settled through an asynchronous swap
//! whose outcome is reconciled when its result arrives.
//!
//! A user places an order and hands over what is to be sold; the contract holds it. The
//! executor starts an execution once the observed price is at or better than the order's
//! target price: the contract notes the swap as under way and hands back the request to send
//! to the exchange. When the result of the swap comes in, the contract settles it: the
//! executor gets a fee, the user the rest, and the order is executed; after a swap that
//! failed the order is pending again. Until an order has ended, its user can cancel it and
//! gets back exactly what was handed over.
//!
//! The contract does no input or output of its own. Who calls and at what time is handed in
//! with each call, and what is to be paid, sent or announced is handed back.
//!
//! - [`model`] holds the contract as a mathematical state and every operation as a function
//!   on it; [`laws`] holds what is proved of these.
//! - [`contract`] holds the contract itself, [`ledger`] its orders and [`storage`] its swaps
//!   under way; [`limit_orders`], [`dex`], [`events`] and [`storage`] declare its operations.
//! - [`biguint`] holds the arithmetic on amounts, which have no upper bound.

pub mod biguint;
pub mod contract;
pub mod dex;
pub mod errors;
pub mod events;
pub mod laws;
pub mod ledger;
pub mod limit_orders;
pub mod model;
pub mod storage;
pub mod types;

pub use biguint::BigUint;
pub use contract::{Contract, ContractBase, StellarNova};
pub use dex::{DexModule, Settlement, SwapRequest, SwapResult};
pub use errors::Error;
pub use events::{Event, EventsModule};
pub use ledger::OrderLedger;
pub use limit_orders::{LimitOrder, LimitOrdersModule, OrderStatus};
pub use storage::{ExecutionContextStore, Snapshot, StorageModule, SwapExecutionContext};
pub use types::{Address, EsdtTokenPayment, TokenIdentifier, Transfer};
