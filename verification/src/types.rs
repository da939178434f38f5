//! Identities and payments that the order logic passes around.

use crate::biguint::BigUint;
use vstd::prelude::*;

verus! {

/// The identity of an account: a user, the executor, the owner or the swap pair.
#[derive(Clone, Copy, Eq, Debug)]
pub struct Address {
    pub bytes: [u8; 32],
}

impl PartialEq for Address {
    fn eq(&self, other: &Address) -> (r: bool) {
        let mut i: usize = 0;
        while i < 32
            invariant
                i <= 32,
                forall|k: int| 0 <= k < i ==> self.bytes@[k] == other.bytes@[k],
            decreases 32 - i,
        {
            if self.bytes[i] != other.bytes[i] {
                return false;
            }
            i += 1;
        }
        assert(self.bytes =~= other.bytes);
        true
    }
}

impl vstd::std_specs::cmp::PartialEqSpecImpl for Address {
    open spec fn obeys_eq_spec() -> bool {
        true
    }

    open spec fn eq_spec(&self, other: &Address) -> bool {
        *self == *other
    }
}

/// The identifier of a fungible token.
#[derive(Eq, Debug)]
pub struct TokenIdentifier {
    pub bytes: Vec<u8>,
}

impl View for TokenIdentifier {
    type V = Seq<u8>;

    open spec fn view(&self) -> Seq<u8> {
        self.bytes@
    }
}

impl TokenIdentifier {
    /// The identifier spelled by `bytes`.
    pub fn from_bytes(bytes: Vec<u8>) -> (r: TokenIdentifier)
        ensures
            r@ == bytes@,
    {
        TokenIdentifier { bytes }
    }
}

impl Clone for TokenIdentifier {
    fn clone(&self) -> (r: TokenIdentifier)
        ensures
            r@ == self@,
    {
        TokenIdentifier { bytes: self.bytes.clone() }
    }
}

impl PartialEq for TokenIdentifier {
    fn eq(&self, other: &TokenIdentifier) -> (r: bool) {
        if self.bytes.len() != other.bytes.len() {
            return false;
        }
        let n = self.bytes.len();
        let mut i: usize = 0;
        while i < n
            invariant
                i <= n,
                n == self.bytes@.len(),
                n == other.bytes@.len(),
                forall|k: int| 0 <= k < i ==> self.bytes@[k] == other.bytes@[k],
            decreases n - i,
        {
            if self.bytes[i] != other.bytes[i] {
                return false;
            }
            i += 1;
        }
        assert(self.bytes@ =~= other.bytes@);
        true
    }
}

impl vstd::std_specs::cmp::PartialEqSpecImpl for TokenIdentifier {
    open spec fn obeys_eq_spec() -> bool {
        true
    }

    open spec fn eq_spec(&self, other: &TokenIdentifier) -> bool {
        self@ == other@
    }
}

/// An amount of one token, as a swap hands it back.
#[derive(Debug)]
pub struct EsdtTokenPayment {
    pub token_identifier: TokenIdentifier,
    pub token_nonce: u64,
    pub amount: BigUint,
}

/// What an [`EsdtTokenPayment`] stands for.
pub struct PaymentView {
    pub token_identifier: Seq<u8>,
    pub token_nonce: u64,
    pub amount: nat,
}

impl View for EsdtTokenPayment {
    type V = PaymentView;

    open spec fn view(&self) -> PaymentView {
        PaymentView {
            token_identifier: self.token_identifier@,
            token_nonce: self.token_nonce,
            amount: self.amount@,
        }
    }
}

/// An instruction to hand `amount` of `token` to `to`.
#[derive(Debug)]
pub struct Transfer {
    pub to: Address,
    pub token: TokenIdentifier,
    pub amount: BigUint,
}

/// What a [`Transfer`] stands for.
pub struct TransferView {
    pub to: Address,
    pub token: Seq<u8>,
    pub amount: nat,
}

impl View for Transfer {
    type V = TransferView;

    open spec fn view(&self) -> TransferView {
        TransferView { to: self.to, token: self.token@, amount: self.amount@ }
    }
}

/// What a list of token identifiers stands for.
pub open spec fn tokens_view(tokens: Seq<TokenIdentifier>) -> Seq<Seq<u8>> {
    tokens.map_values(|t: TokenIdentifier| t@)
}

} // verus!
