//! What each endpoint of the contract does, stated over plain values.
use vstd::prelude::*;

use crate::types::{PaymentView, SwapError, TransferView};

verus! {

/// The contract's storage, as plain values: the token that it takes, the token that it
/// hands out, and for every input nonce the list of output nonces still to hand out.
pub struct SwapEsdtView {
    pub input_token: Seq<u8>,
    pub output_token: Seq<u8>,
    pub available: Map<u64, Seq<u64>>,
}

/// The holdings of the contract's account: an amount for every token and nonce.
pub type BalanceMap = Map<(Seq<u8>, u64), nat>;

/// The position that a random draw picks in a list of `len` entries.
pub open spec fn draw_index(draw: u32, len: nat) -> int {
    (draw as int) % (len as int)
}

/// `s` with its entry at `i` taken out: the last entry moves into its place.
pub open spec fn swap_remove_at(s: Seq<u64>, i: int) -> Seq<u64> {
    s.update(i, s.last()).drop_last()
}

/// How `count` rounds of a swap end when no round fails.
pub struct SwapRounds {
    /// The list left.
    pub pool: Seq<u64>,
    /// The holdings left.
    pub balances: BalanceMap,
    /// The output nonces handed out, one per round, in order.
    pub sent: Seq<u64>,
    /// How many draws have been used in all.
    pub used: nat,
}

/// `count` rounds of a swap: each round takes the random draw at `used`, takes the output
/// nonce that it picks out of `pool`, checks that the contract holds some of that nonce and
/// hands one unit of it out.
pub open spec fn swap_rounds(
    pool: Seq<u64>,
    balances: BalanceMap,
    output: Seq<u8>,
    count: nat,
    draws: Seq<u32>,
    used: nat,
) -> Result<SwapRounds, SwapError>
    decreases count,
{
    if count == 0 {
        Ok(SwapRounds { pool, balances, sent: Seq::empty(), used })
    } else if pool.len() == 0 {
        Err(SwapError::SwapNoOutputToken)
    } else {
        let i = draw_index(draws[used as int], pool.len());
        let n = pool[i];
        let held = balances[(output, n)];
        if held < 1 {
            Err(SwapError::SwapNoOutputToken)
        } else {
            match swap_rounds(
                swap_remove_at(pool, i),
                balances.insert((output, n), (held - 1) as nat),
                output,
                (count - 1) as nat,
                draws,
                used + 1,
            ) {
                Ok(rest) => Ok(SwapRounds { sent: seq![n] + rest.sent, ..rest }),
                Err(e) => Err(e),
            }
        }
    }
}

/// How many random draws `count` rounds on a list of `len` entries can use at most.
pub open spec fn rounds_bound(count: nat, len: nat) -> nat {
    if count <= len {
        count
    } else {
        len
    }
}

/// One unit of output nonce `n` to `to`.
pub open spec fn one_output(to: Seq<u8>, output: Seq<u8>, n: u64) -> TransferView {
    TransferView { to, token: output, nonce: n, amount: 1 }
}

/// The transfers of one unit of each nonce of `nonces`, in order.
pub open spec fn output_transfers(to: Seq<u8>, output: Seq<u8>, nonces: Seq<u64>) -> Seq<
    TransferView,
> {
    nonces.map_values(|n: u64| one_output(to, output, n))
}

/// How a successful call ends: the storage and holdings after it, the transfers that it
/// made, and how many random draws have been used in all.
pub struct CallOutcome {
    pub state: SwapEsdtView,
    pub balances: BalanceMap,
    pub transfers: Seq<TransferView>,
    pub used: nat,
}

/// A swap: `payment` units of `token` at `nonce` come in; for each unit one random output
/// nonce kept for `nonce` goes out to `caller`.
pub open spec fn swap_spec(
    s: SwapEsdtView,
    balances: BalanceMap,
    caller: Seq<u8>,
    payment: nat,
    token: Seq<u8>,
    nonce: u64,
    draws: Seq<u32>,
    used: nat,
) -> Result<CallOutcome, SwapError> {
    if token != s.input_token {
        Err(SwapError::SwapBadToken)
    } else {
        match swap_rounds(
            s.available[nonce],
            balances,
            s.output_token,
            payment,
            draws,
            used,
        ) {
            Ok(r) => Ok(
                CallOutcome {
                    state: SwapEsdtView { available: s.available.insert(nonce, r.pool), ..s },
                    balances: r.balances,
                    transfers: output_transfers(caller, s.output_token, r.sent),
                    used: r.used,
                },
            ),
            Err(e) => Err(e),
        }
    }
}

/// Swaps for each payment in turn; the first that fails fails the whole call.
pub open spec fn multi_swap_spec(
    s: SwapEsdtView,
    balances: BalanceMap,
    caller: Seq<u8>,
    payments: Seq<PaymentView>,
    draws: Seq<u32>,
    used: nat,
) -> Result<CallOutcome, SwapError>
    decreases payments.len(),
{
    if payments.len() == 0 {
        Ok(CallOutcome { state: s, balances, transfers: Seq::empty(), used })
    } else {
        let p = payments[0];
        match swap_spec(s, balances, caller, p.amount, p.token, p.nonce, draws, used) {
            Ok(first) => match multi_swap_spec(
                first.state,
                first.balances,
                caller,
                payments.drop_first(),
                draws,
                first.used,
            ) {
                Ok(rest) => Ok(CallOutcome { transfers: first.transfers + rest.transfers, ..rest }),
                Err(e) => Err(e),
            },
            Err(e) => Err(e),
        }
    }
}

/// How many random draws a multi-swap of `payments` can use at most.
pub open spec fn draws_bound(available: Map<u64, Seq<u64>>, payments: Seq<PaymentView>) -> nat
    decreases payments.len(),
{
    if payments.len() == 0 {
        0
    } else {
        rounds_bound(payments[0].amount, available[payments[0].nonce].len()) + draws_bound(
            available,
            payments.drop_first(),
        )
    }
}

/// Whether a multi-swap of `payments` stays within what the call can compute: each swap of
/// the input token is paid with at most `u64::MAX` units and draws from a list of at most
/// `u32::MAX` entries.
pub open spec fn payments_in_range(s: SwapEsdtView, payments: Seq<PaymentView>) -> bool {
    forall|i: int|
        0 <= i < payments.len() && (#[trigger] payments[i]).token == s.input_token ==> {
            &&& payments[i].amount <= u64::MAX
            &&& s.available[payments[i].nonce].len() <= u32::MAX
        }
}

/// Sends one unit of `token` at each nonce of `nonces` in turn; `None` where the account
/// holds too little for one of them.
pub open spec fn send_each(balances: BalanceMap, token: Seq<u8>, nonces: Seq<u64>) -> Option<
    BalanceMap,
>
    decreases nonces.len(),
{
    if nonces.len() == 0 {
        Some(balances)
    } else {
        let k = (token, nonces[0]);
        if balances[k] < 1 {
            None
        } else {
            send_each(balances.insert(k, (balances[k] - 1) as nat), token, nonces.drop_first())
        }
    }
}

/// The owner takes back every output nonce kept for `input_nonce`.
pub open spec fn claim_outputs_spec(
    s: SwapEsdtView,
    balances: BalanceMap,
    caller: Seq<u8>,
    owner: Seq<u8>,
    input_nonce: u64,
) -> Result<CallOutcome, SwapError> {
    if caller != owner {
        Err(SwapError::NotOwner)
    } else {
        match send_each(balances, s.output_token, s.available[input_nonce]) {
            Some(b) => Ok(
                CallOutcome {
                    state: SwapEsdtView {
                        available: s.available.insert(input_nonce, Seq::empty()),
                        ..s
                    },
                    balances: b,
                    transfers: output_transfers(owner, s.output_token, s.available[input_nonce]),
                    used: 0,
                },
            ),
            None => Err(SwapError::InsufficientFunds),
        }
    }
}

/// The owner takes all that the contract holds of `token` at `nonce`.
pub open spec fn claim_tokens_spec(
    balances: BalanceMap,
    caller: Seq<u8>,
    owner: Seq<u8>,
    token: Seq<u8>,
    nonce: u64,
) -> Result<(BalanceMap, TransferView), SwapError> {
    if caller != owner {
        Err(SwapError::NotOwner)
    } else if balances[(token, nonce)] == 0 {
        Err(SwapError::ClaimInputBalanceEmpty)
    } else {
        Ok(
            (
                balances.insert((token, nonce), 0),
                TransferView { to: owner, token, nonce, amount: balances[(token, nonce)] },
            ),
        )
    }
}

/// The owner adds output nonce `nonce` to the list kept for `input_nonce`, paying one unit
/// of it.
pub open spec fn fill_output_spec(
    s: SwapEsdtView,
    caller: Seq<u8>,
    owner: Seq<u8>,
    payment: nat,
    token: Seq<u8>,
    nonce: u64,
    input_nonce: u64,
) -> Result<SwapEsdtView, SwapError> {
    if token != s.output_token {
        Err(SwapError::FillBadToken)
    } else if caller != owner {
        Err(SwapError::NotOwner)
    } else if payment != 1 {
        Err(SwapError::FillBadPayment)
    } else {
        Ok(
            SwapEsdtView {
                available: s.available.insert(input_nonce, s.available[input_nonce].push(nonce)),
                ..s
            },
        )
    }
}

} // verus!
