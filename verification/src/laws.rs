//! Properties of the contract that hold for every input.
use vstd::prelude::*;
use vstd::multiset::Multiset;

use crate::model::{
    draw_index, SwapRounds,
    claim_outputs_spec, claim_tokens_spec, fill_output_spec, multi_swap_spec, one_output,
    output_transfers, send_each, swap_remove_at, swap_rounds, swap_spec, BalanceMap, CallOutcome,
    SwapEsdtView,
};
use crate::types::{PaymentView, SwapError, TransferView};

verus! {

/// Taking the entry at `i` out of `s` leaves every other entry, as often as before.
pub proof fn lemma_swap_remove_multiset(s: Seq<u64>, i: int)
    requires
        0 <= i < s.len(),
    ensures
        swap_remove_at(s, i).to_multiset().insert(s[i]) == s.to_multiset(),
        swap_remove_at(s, i).len() == s.len() - 1,
{
    broadcast use vstd::multiset::group_multiset_axioms;
    broadcast use vstd::seq_lib::to_multiset_update;
    broadcast use vstd::seq_lib::to_multiset_build;

    let t = s.update(i, s.last());
    assert(t.to_multiset() == s.to_multiset().insert(s.last()).remove(s[i]));
    assert(t.drop_last().push(t.last()) =~= t);
    assert(t.last() == s.last());
    assert(t.drop_last().to_multiset().insert(s.last()) == t.to_multiset());
    assert(s.to_multiset().count(s[i]) > 0) by {
        broadcast use vstd::seq_lib::to_multiset_contains;

        assert(s.contains(s[i]));
    }
    let d = t.drop_last().to_multiset();
    let m = s.to_multiset();
    assert forall|x: u64| #[trigger] d.insert(s[i]).count(x) == m.count(x) by {
        assert(d.insert(s.last()).count(x) == m.insert(s.last()).remove(s[i]).count(x));
    }
    assert(swap_remove_at(s, i).to_multiset().insert(s[i]) =~= s.to_multiset());
}

/// Every swap that succeeds hands out one output nonce per unit paid: each of them is
/// taken out of the list, which keeps every other entry as often as before, and one unit
/// of each leaves the contract's holdings, which are otherwise unchanged.
pub proof fn lemma_swap_rounds_ok(
    pool: Seq<u64>,
    balances: BalanceMap,
    output: Seq<u8>,
    count: nat,
    draws: Seq<u32>,
    used: nat,
)
    requires
        swap_rounds(pool, balances, output, count, draws, used) is Ok,
    ensures
        ({
            let r = swap_rounds(pool, balances, output, count, draws, used)->Ok_0;
            &&& count <= pool.len()
            &&& r.pool.len() == pool.len() - count
            &&& r.sent.len() == count
            &&& r.used == used + count
            &&& pool.to_multiset() == r.pool.to_multiset().add(r.sent.to_multiset())
            &&& forall|k: (Seq<u8>, u64)|
                #![trigger balances[k]]
                #![trigger r.balances[k]]
                balances[k] == r.balances[k] + (if k.0 == output {
                    r.sent.to_multiset().count(k.1)
                } else {
                    0
                })
        }),
    decreases count,
{
    broadcast use vstd::multiset::group_multiset_axioms;
    broadcast use vstd::seq_lib::lemma_multiset_commutative;

    let r = swap_rounds(pool, balances, output, count, draws, used)->Ok_0;
    if count == 0 {
        broadcast use vstd::seq_lib::to_multiset_len;
        broadcast use vstd::multiset::group_multiset_properties;

        assert(r.sent.to_multiset().len() == 0);
        assert(r.sent.to_multiset() =~= Multiset::empty());
        assert(pool.to_multiset().add(Multiset::empty()) =~= pool.to_multiset());
    } else {
        let i = (draws[used as int] as int) % (pool.len() as int);
        let n = pool[i];
        let held = balances[(output, n)];
        let p1 = swap_remove_at(pool, i);
        let b1 = balances.insert((output, n), (held - 1) as nat);
        lemma_swap_remove_multiset(pool, i);
        lemma_swap_rounds_ok(p1, b1, output, (count - 1) as nat, draws, used + 1);
        let rest = swap_rounds(p1, b1, output, (count - 1) as nat, draws, used + 1)->Ok_0;
        assert(r.sent == seq![n] + rest.sent);
        assert(seq![n].to_multiset() =~= Multiset::singleton(n)) by {
            broadcast use vstd::seq_lib::to_multiset_build;

            assert(Seq::<u64>::empty().push(n) =~= seq![n]);
            broadcast use vstd::seq_lib::to_multiset_len;
            broadcast use vstd::multiset::group_multiset_properties;

            assert(Seq::<u64>::empty().to_multiset().len() == 0);
            assert(Seq::<u64>::empty().to_multiset() =~= Multiset::empty());
        }
        assert(r.sent.to_multiset() =~= rest.sent.to_multiset().insert(n));
        assert(pool.to_multiset() =~= r.pool.to_multiset().add(r.sent.to_multiset()));
        assert forall|k: (Seq<u8>, u64)|
            #![trigger balances[k]]
            #![trigger r.balances[k]]
            balances[k] == r.balances[k] + (if k.0 == output {
                r.sent.to_multiset().count(k.1)
            } else {
                0
            }) by {
            assert(b1[k] == r.balances[k] + (if k.0 == output {
                rest.sent.to_multiset().count(k.1)
            } else {
                0
            }));
        }
    }
}

/// A swap that succeeds was paid with the input token and hands exactly `payment` output
/// nonces to the caller, one unit of the output token each. They are taken out of the list
/// kept for the paid nonce, which keeps every other entry as often as before, and out of the
/// contract's holdings, which are otherwise unchanged; the tokens and every other list stay
/// as they were, and one random draw is used per unit.
pub proof fn law_swap_hands_out_one_per_unit(
    s: SwapEsdtView,
    balances: BalanceMap,
    caller: Seq<u8>,
    payment: nat,
    token: Seq<u8>,
    nonce: u64,
    draws: Seq<u32>,
    used: nat,
)
    requires
        swap_spec(s, balances, caller, payment, token, nonce, draws, used) is Ok,
    ensures
        ({
            let o = swap_spec(s, balances, caller, payment, token, nonce, draws, used)->Ok_0;
            let sent = o.transfers.map_values(|t: TransferView| t.nonce);
            &&& token == s.input_token
            &&& o.transfers.len() == payment
            &&& forall|i: int|
                0 <= i < o.transfers.len() ==> {
                    &&& (#[trigger] o.transfers[i]).to == caller
                    &&& o.transfers[i].token == s.output_token
                    &&& o.transfers[i].amount == 1
                }
            &&& o.state.input_token == s.input_token
            &&& o.state.output_token == s.output_token
            &&& forall|k: u64| k != nonce ==> #[trigger] o.state.available[k] == s.available[k]
            &&& s.available[nonce].to_multiset() == o.state.available[nonce].to_multiset().add(
                sent.to_multiset(),
            )
            &&& forall|k: (Seq<u8>, u64)|
                #![trigger balances[k]]
                #![trigger o.balances[k]]
                balances[k] == o.balances[k] + (if k.0 == s.output_token {
                    sent.to_multiset().count(k.1)
                } else {
                    0
                })
            &&& o.used == used + payment
        }),
{
    let r = swap_rounds(s.available[nonce], balances, s.output_token, payment, draws, used)->Ok_0;
    lemma_swap_rounds_ok(s.available[nonce], balances, s.output_token, payment, draws, used);
    let o = swap_spec(s, balances, caller, payment, token, nonce, draws, used)->Ok_0;
    assert(o.transfers.map_values(|t: TransferView| t.nonce) =~= r.sent);
}

/// A swap paid with the input token fails with nothing to swap where the list kept for the
/// paid nonce is empty, whatever the draws.
pub proof fn law_swap_from_empty_list_fails(
    s: SwapEsdtView,
    balances: BalanceMap,
    caller: Seq<u8>,
    payment: nat,
    nonce: u64,
    draws: Seq<u32>,
    used: nat,
)
    requires
        payment >= 1,
        s.available[nonce].len() == 0,
    ensures
        swap_spec(s, balances, caller, payment, s.input_token, nonce, draws, used) == Err::<
            CallOutcome,
            SwapError,
        >(SwapError::SwapNoOutputToken),
{
}

/// A swap paid with another token than the input token fails, whatever else holds.
pub proof fn law_swap_with_other_token_fails(
    s: SwapEsdtView,
    balances: BalanceMap,
    caller: Seq<u8>,
    payment: nat,
    token: Seq<u8>,
    nonce: u64,
    draws: Seq<u32>,
    used: nat,
)
    requires
        token != s.input_token,
    ensures
        swap_spec(s, balances, caller, payment, token, nonce, draws, used) == Err::<
            CallOutcome,
            SwapError,
        >(SwapError::SwapBadToken),
{
}

/// Where one output nonce is kept for the paid nonce and the contract holds it, a swap of
/// one unit hands exactly that nonce to the caller, whatever the draw, and empties the list.
pub proof fn law_swap_from_single_entry(
    s: SwapEsdtView,
    balances: BalanceMap,
    caller: Seq<u8>,
    nonce: u64,
    n: u64,
    draws: Seq<u32>,
    used: nat,
)
    requires
        s.available[nonce] == seq![n],
        balances[(s.output_token, n)] >= 1,
    ensures
        swap_spec(s, balances, caller, 1, s.input_token, nonce, draws, used) == Ok::<
            CallOutcome,
            SwapError,
        >(
            CallOutcome {
                state: SwapEsdtView {
                    available: s.available.insert(nonce, Seq::empty()),
                    ..s
                },
                balances: balances.insert(
                    (s.output_token, n),
                    (balances[(s.output_token, n)] - 1) as nat,
                ),
                transfers: seq![one_output(caller, s.output_token, n)],
                used: used + 1,
            },
        ),
{
    let pool = s.available[nonce];
    let i = (draws[used as int] as int) % (pool.len() as int);
    assert(i == 0);
    assert(swap_remove_at(pool, 0) =~= Seq::<u64>::empty());
    let b1 = balances.insert((s.output_token, n), (balances[(s.output_token, n)] - 1) as nat);
    assert(swap_rounds(Seq::empty(), b1, s.output_token, 0, draws, used + 1) == Ok::<
        crate::model::SwapRounds,
        SwapError,
    >(crate::model::SwapRounds { pool: Seq::empty(), balances: b1, sent: Seq::empty(), used: used + 1 }));
    assert(seq![n] + Seq::<u64>::empty() =~= seq![n]);
    assert(output_transfers(caller, s.output_token, seq![n]) =~= seq![
        one_output(caller, s.output_token, n),
    ]);
}

/// Only the owner can fill the contract or claim from it: every such call by another
/// account fails as not made by the owner (a fill paid in another token than the output
/// token is refused for its token first).
pub proof fn law_only_owner_fills_and_claims(
    s: SwapEsdtView,
    balances: BalanceMap,
    caller: Seq<u8>,
    owner: Seq<u8>,
    payment: nat,
    token: Seq<u8>,
    nonce: u64,
    input_nonce: u64,
)
    requires
        caller != owner,
    ensures
        fill_output_spec(s, caller, owner, payment, s.output_token, nonce, input_nonce) == Err::<
            SwapEsdtView,
            SwapError,
        >(SwapError::NotOwner),
        claim_outputs_spec(s, balances, caller, owner, input_nonce) == Err::<
            CallOutcome,
            SwapError,
        >(SwapError::NotOwner),
        claim_tokens_spec(balances, caller, owner, token, nonce) == Err::<
            (BalanceMap, TransferView),
            SwapError,
        >(SwapError::NotOwner),
{
}

/// A fill adds the paid nonce at the end of the list kept for the input nonce; a later
/// claim of the outputs of that input nonce, where it succeeds, hands back every nonce of
/// the list in order, the filled one last, and leaves the list empty.
pub proof fn law_fill_then_claim_outputs(
    s: SwapEsdtView,
    balances: BalanceMap,
    owner: Seq<u8>,
    nonce: u64,
    input_nonce: u64,
)
    requires
        fill_output_spec(s, owner, owner, 1, s.output_token, nonce, input_nonce) is Ok,
    ensures
        ({
            let s1 = fill_output_spec(s, owner, owner, 1, s.output_token, nonce, input_nonce)->Ok_0;
            &&& s1.available[input_nonce] == s.available[input_nonce].push(nonce)
            &&& claim_outputs_spec(s1, balances, owner, owner, input_nonce) is Ok ==> {
                let o = claim_outputs_spec(s1, balances, owner, owner, input_nonce)->Ok_0;
                &&& o.transfers == output_transfers(
                    owner,
                    s.output_token,
                    s.available[input_nonce].push(nonce),
                )
                &&& o.transfers.last() == one_output(owner, s.output_token, nonce)
                &&& o.state.available[input_nonce] == Seq::<u64>::empty()
            }
        }),
{
}

/// After the owner claims the outputs of an input nonce, a swap of that nonce fails with
/// nothing to swap, until the list is filled again.
pub proof fn law_claim_outputs_then_swap_fails(
    s: SwapEsdtView,
    balances: BalanceMap,
    owner: Seq<u8>,
    caller: Seq<u8>,
    input_nonce: u64,
    payment: nat,
    draws: Seq<u32>,
    used: nat,
)
    requires
        claim_outputs_spec(s, balances, owner, owner, input_nonce) is Ok,
        payment >= 1,
    ensures
        ({
            let o = claim_outputs_spec(s, balances, owner, owner, input_nonce)->Ok_0;
            swap_spec(o.state, o.balances, caller, payment, s.input_token, input_nonce, draws, used)
                == Err::<CallOutcome, SwapError>(SwapError::SwapNoOutputToken)
        }),
{
}

/// A claim that succeeds hands the owner all that the contract held of the token at the
/// nonce and leaves none of it, so a second claim of the same pair fails as empty.
pub proof fn law_claim_tokens_takes_all(
    balances: BalanceMap,
    owner: Seq<u8>,
    token: Seq<u8>,
    nonce: u64,
)
    requires
        claim_tokens_spec(balances, owner, owner, token, nonce) is Ok,
    ensures
        ({
            let (b1, t) = claim_tokens_spec(balances, owner, owner, token, nonce)->Ok_0;
            &&& t.amount == balances[(token, nonce)]
            &&& t.to == owner
            &&& b1[(token, nonce)] == 0
            &&& forall|k: (Seq<u8>, u64)| k != (token, nonce) ==> #[trigger] b1[k] == balances[k]
            &&& claim_tokens_spec(b1, owner, owner, token, nonce) == Err::<
                (BalanceMap, TransferView),
                SwapError,
            >(SwapError::ClaimInputBalanceEmpty)
        }),
{
}

/// A claim of the outputs that succeeds takes one unit of each listed nonce out of the
/// contract's holdings, and nothing else.
pub proof fn law_claim_outputs_sends_one_each(balances: BalanceMap, token: Seq<u8>, nonces: Seq<u64>)
    requires
        send_each(balances, token, nonces) is Some,
    ensures
        ({
            let b1 = send_each(balances, token, nonces)->Some_0;
            forall|k: (Seq<u8>, u64)|
                #![trigger balances[k]]
                #![trigger b1[k]]
                balances[k] == b1[k] + (if k.0 == token {
                    nonces.to_multiset().count(k.1)
                } else {
                    0
                })
        }),
    decreases nonces.len(),
{
    broadcast use vstd::multiset::group_multiset_axioms;
    broadcast use vstd::seq_lib::lemma_multiset_commutative;

    if nonces.len() == 0 {
        broadcast use vstd::seq_lib::to_multiset_len;
        broadcast use vstd::multiset::group_multiset_properties;

        assert(nonces.to_multiset().len() == 0);
        assert(nonces.to_multiset() =~= Multiset::empty());
    } else {
        let k0 = (token, nonces[0]);
        let b = balances.insert(k0, (balances[k0] - 1) as nat);
        law_claim_outputs_sends_one_each(b, token, nonces.drop_first());
        assert(nonces =~= seq![nonces[0]] + nonces.drop_first());
        assert(seq![nonces[0]].to_multiset() =~= Multiset::singleton(nonces[0])) by {
            broadcast use vstd::seq_lib::to_multiset_build;
            broadcast use vstd::seq_lib::to_multiset_len;
            broadcast use vstd::multiset::group_multiset_properties;

            assert(Seq::<u64>::empty().push(nonces[0]) =~= seq![nonces[0]]);
            assert(Seq::<u64>::empty().to_multiset().len() == 0);
            assert(Seq::<u64>::empty().to_multiset() =~= Multiset::empty());
        }
        assert(nonces.to_multiset() =~= nonces.drop_first().to_multiset().insert(nonces[0]));
    }
}

/// A multi-swap of one payment does what a swap of that payment does.
pub proof fn law_multi_swap_of_one_payment(
    s: SwapEsdtView,
    balances: BalanceMap,
    caller: Seq<u8>,
    p: PaymentView,
    draws: Seq<u32>,
    used: nat,
)
    ensures
        multi_swap_spec(s, balances, caller, seq![p], draws, used) == swap_spec(
            s,
            balances,
            caller,
            p.amount,
            p.token,
            p.nonce,
            draws,
            used,
        ),
{
    let first = swap_spec(s, balances, caller, p.amount, p.token, p.nonce, draws, used);
    assert(seq![p].drop_first() =~= Seq::<PaymentView>::empty());
    match first {
        Ok(o) => {
            assert(multi_swap_spec(o.state, o.balances, caller, Seq::empty(), draws, o.used)
                == Ok::<CallOutcome, SwapError>(
                CallOutcome {
                    state: o.state,
                    balances: o.balances,
                    transfers: Seq::empty(),
                    used: o.used,
                },
            ));
            assert(o.transfers + Seq::<TransferView>::empty() =~= o.transfers);
        },
        Err(e) => {},
    }
}

/// A multi-swap does its payments one after the other: that of `a + b` is that of `a`,
/// then that of `b` from where `a` ended, with the transfers of both in order.
pub proof fn law_multi_swap_concat(
    s: SwapEsdtView,
    balances: BalanceMap,
    caller: Seq<u8>,
    a: Seq<PaymentView>,
    b: Seq<PaymentView>,
    draws: Seq<u32>,
    used: nat,
)
    ensures
        multi_swap_spec(s, balances, caller, a + b, draws, used) == match multi_swap_spec(
            s,
            balances,
            caller,
            a,
            draws,
            used,
        ) {
            Ok(first) => match multi_swap_spec(
                first.state,
                first.balances,
                caller,
                b,
                draws,
                first.used,
            ) {
                Ok(rest) => Ok(CallOutcome { transfers: first.transfers + rest.transfers, ..rest }),
                Err(e) => Err(e),
            },
            Err(e) => Err(e),
        },
    decreases a.len(),
{
    if a.len() == 0 {
        assert(a + b =~= b);
        match multi_swap_spec(s, balances, caller, b, draws, used) {
            Ok(rest) => {
                assert(Seq::<TransferView>::empty() + rest.transfers =~= rest.transfers);
            },
            Err(e) => {},
        }
    } else {
        let p = a[0];
        assert((a + b).drop_first() =~= a.drop_first() + b);
        assert((a + b)[0] == p);
        match swap_spec(s, balances, caller, p.amount, p.token, p.nonce, draws, used) {
            Ok(o) => {
                law_multi_swap_concat(o.state, o.balances, caller, a.drop_first(), b, draws, o.used);
                match multi_swap_spec(o.state, o.balances, caller, a.drop_first(), draws, o.used) {
                    Ok(m) => {
                        match multi_swap_spec(m.state, m.balances, caller, b, draws, m.used) {
                            Ok(rest) => {
                                assert(o.transfers + (m.transfers + rest.transfers) =~= (
                                o.transfers + m.transfers) + rest.transfers);
                            },
                            Err(e) => {},
                        }
                    },
                    Err(e) => {},
                }
            },
            Err(e) => {},
        }
    }
}

/// Sending one unit of each listed nonce in turn succeeds exactly where the account holds,
/// of every nonce, at least as many units as the list names it.
pub proof fn lemma_send_each_succeeds(balances: BalanceMap, token: Seq<u8>, nonces: Seq<u64>)
    ensures
        send_each(balances, token, nonces) is Some <==> forall|x: u64|
            #[trigger] balances[(token, x)] >= nonces.to_multiset().count(x),
    decreases nonces.len(),
{
    broadcast use vstd::multiset::group_multiset_axioms;

    if nonces.len() == 0 {
        broadcast use vstd::seq_lib::to_multiset_len;
        broadcast use vstd::multiset::group_multiset_properties;

        assert(nonces.to_multiset().len() == 0);
        assert(nonces.to_multiset() =~= Multiset::empty());
    } else {
        let n0 = nonces[0];
        let k0 = (token, n0);
        let rest = nonces.drop_first();
        let b = balances.insert(k0, (balances[k0] - 1) as nat);
        lemma_send_each_succeeds(b, token, rest);
        assert(nonces.to_multiset() =~= rest.to_multiset().insert(n0)) by {
            broadcast use vstd::seq_lib::lemma_multiset_commutative;
            broadcast use vstd::seq_lib::to_multiset_build;
            broadcast use vstd::seq_lib::to_multiset_len;
            broadcast use vstd::multiset::group_multiset_properties;

            assert(nonces =~= seq![n0] + rest);
            assert(Seq::<u64>::empty().push(n0) =~= seq![n0]);
            assert(Seq::<u64>::empty().to_multiset().len() == 0);
            assert(Seq::<u64>::empty().to_multiset() =~= Multiset::empty());
        }
        if balances[k0] < 1 {
            assert(balances[(token, n0)] < nonces.to_multiset().count(n0));
        } else {
            if send_each(balances, token, nonces) is Some {
                assert forall|x: u64| #[trigger]
                    balances[(token, x)] >= nonces.to_multiset().count(x) by {
                    assert(b[(token, x)] >= rest.to_multiset().count(x));
                }
            }
            if forall|x: u64| #[trigger] balances[(token, x)] >= nonces.to_multiset().count(x) {
                assert forall|x: u64| #[trigger] b[(token, x)] >= rest.to_multiset().count(x) by {
                    assert(balances[(token, x)] >= nonces.to_multiset().count(x));
                }
            }
        }
    }
}

/// A claim of tokens fails as not made by the owner exactly when another account makes it;
/// the owner's claim fails as empty exactly when the contract holds none of the token at
/// the nonce, and otherwise succeeds: the owner receives one transfer of all of it, and
/// the contract keeps none of that pair and all of every other.
pub proof fn law_claim_tokens_outcome(
    balances: BalanceMap,
    caller: Seq<u8>,
    owner: Seq<u8>,
    token: Seq<u8>,
    nonce: u64,
)
    ensures
        caller != owner ==> claim_tokens_spec(balances, caller, owner, token, nonce) == Err::<
            (BalanceMap, TransferView),
            SwapError,
        >(SwapError::NotOwner),
        caller == owner && balances[(token, nonce)] == 0 ==> claim_tokens_spec(
            balances,
            caller,
            owner,
            token,
            nonce,
        ) == Err::<(BalanceMap, TransferView), SwapError>(SwapError::ClaimInputBalanceEmpty),
        caller == owner && balances[(token, nonce)] > 0 ==> {
            &&& claim_tokens_spec(balances, caller, owner, token, nonce) is Ok
            &&& {
                let (b1, t) = claim_tokens_spec(balances, caller, owner, token, nonce)->Ok_0;
                &&& t == TransferView { to: owner, token, nonce, amount: balances[(token, nonce)] }
                &&& b1[(token, nonce)] == 0
                &&& forall|k: (Seq<u8>, u64)|
                    k != (token, nonce) ==> #[trigger] b1[k] == balances[k]
            }
        },
{
}

/// A claim of the outputs of `input_nonce` fails as not made by the owner exactly when
/// another account makes it. The owner's claim succeeds exactly when the contract holds,
/// of every output nonce, at least as many units as the list names it, and fails for want
/// of funds otherwise. On success the owner receives one unit of each listed entry, in
/// list order; exactly those units leave the contract's holdings; the list of
/// `input_nonce` is emptied and the tokens and every other list stay as they were.
pub proof fn law_claim_outputs_outcome(
    s: SwapEsdtView,
    balances: BalanceMap,
    caller: Seq<u8>,
    owner: Seq<u8>,
    input_nonce: u64,
)
    ensures
        caller != owner ==> claim_outputs_spec(s, balances, caller, owner, input_nonce) == Err::<
            CallOutcome,
            SwapError,
        >(SwapError::NotOwner),
        caller == owner ==> (claim_outputs_spec(s, balances, caller, owner, input_nonce) is Ok
            <==> forall|x: u64|
            #[trigger] balances[(s.output_token, x)] >= s.available[input_nonce].to_multiset().count(
                x,
            )),
        caller == owner && !(claim_outputs_spec(s, balances, caller, owner, input_nonce) is Ok)
            ==> claim_outputs_spec(s, balances, caller, owner, input_nonce) == Err::<
            CallOutcome,
            SwapError,
        >(SwapError::InsufficientFunds),
        claim_outputs_spec(s, balances, caller, owner, input_nonce) is Ok ==> {
            let o = claim_outputs_spec(s, balances, caller, owner, input_nonce)->Ok_0;
            let list = s.available[input_nonce];
            &&& o.transfers.len() == list.len()
            &&& forall|i: int|
                0 <= i < list.len() ==> #[trigger] o.transfers[i] == TransferView {
                    to: owner,
                    token: s.output_token,
                    nonce: list[i],
                    amount: 1,
                }
            &&& forall|k: (Seq<u8>, u64)|
                #![trigger balances[k]]
                #![trigger o.balances[k]]
                balances[k] == o.balances[k] + (if k.0 == s.output_token {
                    list.to_multiset().count(k.1)
                } else {
                    0
                })
            &&& o.state.input_token == s.input_token
            &&& o.state.output_token == s.output_token
            &&& o.state.available[input_nonce] == Seq::<u64>::empty()
            &&& forall|k: u64| k != input_nonce ==> #[trigger] o.state.available[k] == s.available[k]
        },
{
    let list = s.available[input_nonce];
    lemma_send_each_succeeds(balances, s.output_token, list);
    if claim_outputs_spec(s, balances, caller, owner, input_nonce) is Ok {
        law_claim_outputs_sends_one_each(balances, s.output_token, list);
    }
}

/// A fill paid in another token than the output token is refused for its token, whoever
/// makes it. A fill succeeds exactly when the owner pays one unit of the output token, and
/// then only appends the paid nonce to the list of `input_nonce`: the tokens and every
/// other list stay as they were. The owner paying another amount is refused as a bad
/// payment.
pub proof fn law_fill_output_outcome(
    s: SwapEsdtView,
    caller: Seq<u8>,
    owner: Seq<u8>,
    payment: nat,
    token: Seq<u8>,
    nonce: u64,
    input_nonce: u64,
)
    ensures
        token != s.output_token ==> fill_output_spec(
            s,
            caller,
            owner,
            payment,
            token,
            nonce,
            input_nonce,
        ) == Err::<SwapEsdtView, SwapError>(SwapError::FillBadToken),
        token == s.output_token && caller == owner && payment != 1 ==> fill_output_spec(
            s,
            caller,
            owner,
            payment,
            token,
            nonce,
            input_nonce,
        ) == Err::<SwapEsdtView, SwapError>(SwapError::FillBadPayment),
        fill_output_spec(s, caller, owner, payment, token, nonce, input_nonce) is Ok <==> (token
            == s.output_token && caller == owner && payment == 1),
        fill_output_spec(s, caller, owner, payment, token, nonce, input_nonce) is Ok ==> {
            let s1 = fill_output_spec(s, caller, owner, payment, token, nonce, input_nonce)->Ok_0;
            &&& s1.input_token == s.input_token
            &&& s1.output_token == s.output_token
            &&& s1.available[input_nonce].len() == s.available[input_nonce].len() + 1
            &&& s1.available[input_nonce].last() == nonce
            &&& s1.available[input_nonce].drop_last() == s.available[input_nonce]
            &&& forall|k: u64| k != input_nonce ==> #[trigger] s1.available[k] == s.available[k]
        },
{
    if fill_output_spec(s, caller, owner, payment, token, nonce, input_nonce) is Ok {
        assert(s.available[input_nonce].push(nonce).drop_last() =~= s.available[input_nonce]);
    }
}

/// Every failed round of a swap fails for want of an output token to hand out.
proof fn lemma_swap_rounds_fail_reason(
    pool: Seq<u64>,
    balances: BalanceMap,
    output: Seq<u8>,
    count: nat,
    draws: Seq<u32>,
    used: nat,
)
    ensures
        swap_rounds(pool, balances, output, count, draws, used) is Err ==> swap_rounds(
            pool,
            balances,
            output,
            count,
            draws,
            used,
        ) == Err::<SwapRounds, SwapError>(SwapError::SwapNoOutputToken),
    decreases count,
{
    if count > 0 && pool.len() > 0 {
        let i = draw_index(draws[used as int], pool.len());
        let n = pool[i];
        let held = balances[(output, n)];
        lemma_swap_rounds_fail_reason(
            swap_remove_at(pool, i),
            balances.insert((output, n), (held - 1) as nat),
            output,
            (count - 1) as nat,
            draws,
            used + 1,
        );
    }
}

/// Rounds drawn from a list whose every entry the contract holds a unit for succeed while
/// the list lasts.
proof fn lemma_swap_rounds_backed(
    pool: Seq<u64>,
    balances: BalanceMap,
    output: Seq<u8>,
    count: nat,
    draws: Seq<u32>,
    used: nat,
)
    requires
        count <= pool.len(),
        forall|x: u64| #[trigger] balances[(output, x)] >= pool.to_multiset().count(x),
    ensures
        swap_rounds(pool, balances, output, count, draws, used) is Ok,
    decreases count,
{
    broadcast use vstd::multiset::group_multiset_axioms;

    if count > 0 {
        let i = draw_index(draws[used as int], pool.len());
        let n = pool[i];
        let held = balances[(output, n)];
        let p1 = swap_remove_at(pool, i);
        let b1 = balances.insert((output, n), (held - 1) as nat);
        lemma_swap_remove_multiset(pool, i);
        assert(balances[(output, n)] >= pool.to_multiset().count(n));
        assert forall|x: u64| #[trigger] b1[(output, x)] >= p1.to_multiset().count(x) by {
            assert(balances[(output, x)] >= pool.to_multiset().count(x));
        }
        lemma_swap_rounds_backed(p1, b1, output, (count - 1) as nat, draws, used + 1);
    }
}

/// A swap in the input token fails for want of output tokens whenever more units are paid
/// than nonces are listed for the paid nonce; and it succeeds, whatever the draws, when no
/// more units are paid than nonces are listed and the contract holds a unit for every
/// listed entry. Any swap in the input token that fails, fails for want of output tokens.
pub proof fn law_swap_success(
    s: SwapEsdtView,
    balances: BalanceMap,
    caller: Seq<u8>,
    payment: nat,
    nonce: u64,
    draws: Seq<u32>,
    used: nat,
)
    ensures
        payment > s.available[nonce].len() ==> swap_spec(
            s,
            balances,
            caller,
            payment,
            s.input_token,
            nonce,
            draws,
            used,
        ) == Err::<CallOutcome, SwapError>(SwapError::SwapNoOutputToken),
        payment <= s.available[nonce].len() && (forall|x: u64|
            #[trigger] balances[(s.output_token, x)] >= s.available[nonce].to_multiset().count(x))
            ==> swap_spec(s, balances, caller, payment, s.input_token, nonce, draws, used) is Ok,
        swap_spec(s, balances, caller, payment, s.input_token, nonce, draws, used) is Err
            ==> swap_spec(s, balances, caller, payment, s.input_token, nonce, draws, used)
            == Err::<CallOutcome, SwapError>(SwapError::SwapNoOutputToken),
{
    let pool = s.available[nonce];
    lemma_swap_rounds_fail_reason(pool, balances, s.output_token, payment, draws, used);
    if swap_rounds(pool, balances, s.output_token, payment, draws, used) is Ok {
        lemma_swap_rounds_ok(pool, balances, s.output_token, payment, draws, used);
    }
    if payment <= pool.len() && (forall|x: u64|
        #[trigger] balances[(s.output_token, x)] >= pool.to_multiset().count(x)) {
        lemma_swap_rounds_backed(pool, balances, s.output_token, payment, draws, used);
    }
}

/// A random draw picks a position inside the list, and every position of a list of at
/// most `u32::MAX` entries is picked by some draw.
pub proof fn law_draw_reaches_every_position(draw: u32, len: nat, i: nat)
    requires
        0 < len <= u32::MAX,
    ensures
        0 <= draw_index(draw, len) < len,
        i < len ==> draw_index(i as u32, len) == i,
{
    if i < len {
        assert((i as u32) as int == i);
        vstd::arithmetic::div_mod::lemma_small_mod(i, len);
    }
}

} // verus!
