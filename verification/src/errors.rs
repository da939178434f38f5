//! The reasons for which an operation is refused.

use vstd::prelude::*;

verus! {

/// Why an operation was refused. A refused operation changes nothing, with the one exception
/// that a swap result always uses up its execution context.
#[derive(Clone, Copy, PartialEq, Eq, Structural, Debug)]
pub enum Error {
    /// The contract is paused.
    Paused,
    /// The caller is not the owner of the contract.
    NotContractOwner,
    /// The token is already on the whitelist.
    AlreadyWhitelisted,
    /// The token is not on the whitelist.
    NotWhitelisted,
    /// The execution fee is above the cap.
    FeeTooHigh,
    /// The token offered is not on the whitelist.
    FromTokenNotWhitelisted,
    /// The token asked for is not on the whitelist.
    ToTokenNotWhitelisted,
    /// The token offered and the token asked for are the same.
    SameToken,
    /// The amount offered is zero.
    InvalidAmount,
    /// The numerator of the target price is zero.
    InvalidPriceNumerator,
    /// The denominator of the target price is zero.
    InvalidPriceDenominator,
    /// The slippage tolerance is above the configured maximum, or above 100%.
    SlippageTooHigh,
    /// The expiry time does not fit in 64 bits.
    ExpiryOverflow,
    /// No order identifier is left.
    OrderIdsExhausted,
    /// The caller is not the registered executor.
    NotExecutor,
    /// No order has this identifier.
    OrderNotFound,
    /// The caller is not the user who placed the order.
    NotOwner,
    /// The order is not pending.
    InvalidState,
    /// The order has expired.
    Expired,
    /// The observed price is worse than the order's target price.
    PriceConditionNotMet,
    /// A swap for this order is already under way.
    DuplicateExecution,
    /// No swap pair is configured.
    PairNotSet,
    /// No swap is under way for this order.
    ContextNotFound,
    /// The swap failed.
    SwapFailed,
    /// The swap gave less than the order's minimum output.
    SlippageViolation,
}

impl Error {
    /// The text of the message for this error.
    pub open spec fn text(self) -> Seq<char> {
        match self {
            Error::Paused => "Contract is paused"@,
            Error::NotContractOwner => "Only contract owner can call this function"@,
            Error::AlreadyWhitelisted => "Token already whitelisted"@,
            Error::NotWhitelisted => "Token not in whitelist"@,
            Error::FeeTooHigh => "Fee too high (max 5%)"@,
            Error::FromTokenNotWhitelisted => "From token not whitelisted"@,
            Error::ToTokenNotWhitelisted => "To token not whitelisted"@,
            Error::SameToken => "Cannot swap token to itself"@,
            Error::InvalidAmount => "Amount must be greater than zero"@,
            Error::InvalidPriceNumerator => "Target price numerator must be positive"@,
            Error::InvalidPriceDenominator => "Target price denominator must be positive"@,
            Error::SlippageTooHigh => "Slippage exceeds maximum allowed"@,
            Error::ExpiryOverflow => "Expiry time out of range"@,
            Error::OrderIdsExhausted => "No order identifier left"@,
            Error::NotExecutor => "Only executor can execute orders"@,
            Error::OrderNotFound => "Order not found"@,
            Error::NotOwner => "Not your order"@,
            Error::InvalidState => "Order is not pending"@,
            Error::Expired => "Order expired"@,
            Error::PriceConditionNotMet => "Price condition not met"@,
            Error::DuplicateExecution => "Execution already in progress"@,
            Error::PairNotSet => "Swap pair not set"@,
            Error::ContextNotFound => "Execution context not found"@,
            Error::SwapFailed => "Swap failed"@,
            Error::SlippageViolation => "Swap output below minimum"@,
        }
    }

    /// The message for this error.
    pub fn message(&self) -> (r: &'static str)
        ensures
            r@ == self.text(),
    {
        match self {
            Error::Paused => "Contract is paused",
            Error::NotContractOwner => "Only contract owner can call this function",
            Error::AlreadyWhitelisted => "Token already whitelisted",
            Error::NotWhitelisted => "Token not in whitelist",
            Error::FeeTooHigh => "Fee too high (max 5%)",
            Error::FromTokenNotWhitelisted => "From token not whitelisted",
            Error::ToTokenNotWhitelisted => "To token not whitelisted",
            Error::SameToken => "Cannot swap token to itself",
            Error::InvalidAmount => "Amount must be greater than zero",
            Error::InvalidPriceNumerator => "Target price numerator must be positive",
            Error::InvalidPriceDenominator => "Target price denominator must be positive",
            Error::SlippageTooHigh => "Slippage exceeds maximum allowed",
            Error::ExpiryOverflow => "Expiry time out of range",
            Error::OrderIdsExhausted => "No order identifier left",
            Error::NotExecutor => "Only executor can execute orders",
            Error::OrderNotFound => "Order not found",
            Error::NotOwner => "Not your order",
            Error::InvalidState => "Order is not pending",
            Error::Expired => "Order expired",
            Error::PriceConditionNotMet => "Price condition not met",
            Error::DuplicateExecution => "Execution already in progress",
            Error::PairNotSet => "Swap pair not set",
            Error::ContextNotFound => "Execution context not found",
            Error::SwapFailed => "Swap failed",
            Error::SlippageViolation => "Swap output below minimum",
        }
    }
}

/// What an operation that hands nothing back returns: the reason for which it is refused,
/// if it is.
pub open spec fn outcome(failure: Option<Error>) -> Result<(), Error> {
    match failure {
        Some(e) => Err(e),
        None => Ok(()),
    }
}

} // verus!
