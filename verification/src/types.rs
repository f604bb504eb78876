//! The values that go into and come out of the contract's endpoints.
use vstd::prelude::*;

verus! {

/// Why an endpoint refused a call; the call then changes nothing.
#[derive(Clone, Copy, Debug, PartialEq, Eq, Structural)]
pub enum SwapError {
    /// The caller is not the owner of the contract.
    NotOwner,
    /// A swap was paid with another token than the input token.
    SwapBadToken,
    /// There is no output token left to hand out, or the contract holds too little of it.
    SwapNoOutputToken,
    /// A fill was paid with another token than the output token.
    FillBadToken,
    /// A fill was paid with an amount other than one.
    FillBadPayment,
    /// The contract holds nothing of the token that was to be claimed.
    ClaimInputBalanceEmpty,
    /// A transfer asked for more than the contract's account holds.
    InsufficientFunds,
}

pub const ERR_NOT_OWNER: &'static str = "Endpoint can only be called by owner";

pub const ERR_SWAP_BAD_TOKEN: &'static str = "The token identifier sent is not the one expected";

pub const ERR_SWAP_NO_OUTPUT_TOKEN: &'static str = "There is nothing to swap. The balance is empty.";

pub const ERR_FILL_BAD_TOKEN: &'static str = "The token identifier sent is not the one expected";

pub const ERR_FILL_BAD_PAYMENT: &'static str = "You can only fill with NFT.";

pub const ERR_CLAIM_INPUT_BALANCE_EMPTY: &'static str = "The input balance is empty.";

pub const ERR_INSUFFICIENT_FUNDS: &'static str = "insufficient funds";

impl SwapError {
    /// The message with which the call fails.
    pub fn message(&self) -> (r: &'static str)
        ensures
            r@ == match self {
                SwapError::NotOwner => ERR_NOT_OWNER@,
                SwapError::SwapBadToken => ERR_SWAP_BAD_TOKEN@,
                SwapError::SwapNoOutputToken => ERR_SWAP_NO_OUTPUT_TOKEN@,
                SwapError::FillBadToken => ERR_FILL_BAD_TOKEN@,
                SwapError::FillBadPayment => ERR_FILL_BAD_PAYMENT@,
                SwapError::ClaimInputBalanceEmpty => ERR_CLAIM_INPUT_BALANCE_EMPTY@,
                SwapError::InsufficientFunds => ERR_INSUFFICIENT_FUNDS@,
            },
    {
        match self {
            SwapError::NotOwner => ERR_NOT_OWNER,
            SwapError::SwapBadToken => ERR_SWAP_BAD_TOKEN,
            SwapError::SwapNoOutputToken => ERR_SWAP_NO_OUTPUT_TOKEN,
            SwapError::FillBadToken => ERR_FILL_BAD_TOKEN,
            SwapError::FillBadPayment => ERR_FILL_BAD_PAYMENT,
            SwapError::ClaimInputBalanceEmpty => ERR_CLAIM_INPUT_BALANCE_EMPTY,
            SwapError::InsufficientFunds => ERR_INSUFFICIENT_FUNDS,
        }
    }
}

/// Who makes the call, and who owns the contract.
pub struct CallContext {
    pub caller: Vec<u8>,
    pub owner: Vec<u8>,
}

/// A token payment that comes with a call.
pub struct Payment {
    pub token: Vec<u8>,
    pub nonce: u64,
    pub amount: u128,
}

/// A payment, as plain values.
pub struct PaymentView {
    pub token: Seq<u8>,
    pub nonce: u64,
    pub amount: nat,
}

impl View for Payment {
    type V = PaymentView;

    open spec fn view(&self) -> PaymentView {
        PaymentView { token: self.token@, nonce: self.nonce, amount: self.amount as nat }
    }
}

/// A transfer that the contract makes from its own account.
#[derive(Debug, PartialEq, Eq)]
pub struct Transfer {
    pub to: Vec<u8>,
    pub token: Vec<u8>,
    pub nonce: u64,
    pub amount: u128,
}

/// A transfer, as plain values.
pub struct TransferView {
    pub to: Seq<u8>,
    pub token: Seq<u8>,
    pub nonce: u64,
    pub amount: nat,
}

impl View for Transfer {
    type V = TransferView;

    open spec fn view(&self) -> TransferView {
        TransferView {
            to: self.to@,
            token: self.token@,
            nonce: self.nonce,
            amount: self.amount as nat,
        }
    }
}

/// The transfers of a list, as plain values.
pub open spec fn transfers_view(ts: Seq<Transfer>) -> Seq<TransferView> {
    ts.map_values(|t: Transfer| t@)
}

/// The payments of a list, as plain values.
pub open spec fn payments_view(ps: Seq<Payment>) -> Seq<PaymentView> {
    ps.map_values(|p: Payment| p@)
}

} // verus!
