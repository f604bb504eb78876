//! A verified model of an NFT swap contract: the storage and the endpoints of a contract
//! that takes one token and hands out, at random, the units of another.
use vstd::prelude::*;

pub mod balances;
pub mod bytes;
pub mod laws;
pub mod model;
pub mod pools;
pub mod types;

pub use types::{
    CallContext, Payment, SwapError, Transfer, ERR_CLAIM_INPUT_BALANCE_EMPTY, ERR_FILL_BAD_PAYMENT,
    ERR_FILL_BAD_TOKEN, ERR_INSUFFICIENT_FUNDS, ERR_NOT_OWNER, ERR_SWAP_BAD_TOKEN,
    ERR_SWAP_NO_OUTPUT_TOKEN,
};

pub use crate::balances::Balances;
use crate::bytes::{bytes_eq, copy_bytes};
use crate::laws::lemma_swap_rounds_ok;
use crate::model::{
    claim_outputs_spec, claim_tokens_spec, draw_index, draws_bound, fill_output_spec,
    multi_swap_spec, one_output, output_transfers, payments_in_range, rounds_bound, send_each,
    swap_remove_at, swap_rounds, swap_spec, CallOutcome, SwapEsdtView, SwapRounds,
};
use crate::pools::NoncePools;
use crate::types::{payments_view, transfers_view, PaymentView, TransferView};

verus! {

/// `sent` handed out before the rounds that `r` describes.
pub open spec fn after_sent(sent: Seq<u64>, r: Result<SwapRounds, SwapError>) -> Result<
    SwapRounds,
    SwapError,
> {
    match r {
        Ok(o) => Ok(SwapRounds { sent: sent + o.sent, ..o }),
        Err(e) => Err(e),
    }
}

/// `ts` made before the call that `r` describes.
pub open spec fn after_transfers(ts: Seq<TransferView>, r: Result<CallOutcome, SwapError>) -> Result<
    CallOutcome,
    SwapError,
> {
    match r {
        Ok(o) => Ok(CallOutcome { transfers: ts + o.transfers, ..o }),
        Err(e) => Err(e),
    }
}

/// The storage of the swap contract.
pub struct ContractObj {
    input_token: Vec<u8>,
    output_token: Vec<u8>,
    available_output_nonce: NoncePools,
}

impl View for ContractObj {
    type V = SwapEsdtView;

    closed spec fn view(&self) -> SwapEsdtView {
        SwapEsdtView {
            input_token: self.input_token@,
            output_token: self.output_token@,
            available: self.available_output_nonce@,
        }
    }
}

/// One unit of each nonce of `nonces` to `to`, in order.
fn make_output_transfers(to: &Vec<u8>, token: &Vec<u8>, nonces: &Vec<u64>) -> (r: Vec<Transfer>)
    ensures
        transfers_view(r@) == output_transfers(to@, token@, nonces@),
{
    let mut r: Vec<Transfer> = Vec::new();
    let n = nonces.len();
    for i in 0..n
        invariant
            n == nonces@.len(),
            r@.len() == i,
            forall|k: int|
                0 <= k < i ==> (#[trigger] r@[k])@ == one_output(to@, token@, nonces@[k]),
    {
        r.push(Transfer { to: copy_bytes(to), token: copy_bytes(token), nonce: nonces[i], amount: 1 });
    }
    assert(transfers_view(r@) =~= output_transfers(to@, token@, nonces@));
    r
}

/// A bound over shorter lists is no larger.
proof fn lemma_draws_bound_shrink(
    small: Map<u64, Seq<u64>>,
    large: Map<u64, Seq<u64>>,
    payments: Seq<PaymentView>,
)
    requires
        forall|k: u64| #[trigger] small[k].len() <= large[k].len(),
    ensures
        draws_bound(small, payments) <= draws_bound(large, payments),
    decreases payments.len(),
{
    if payments.len() > 0 {
        assert(small[payments[0].nonce].len() <= large[payments[0].nonce].len());
        lemma_draws_bound_shrink(small, large, payments.drop_first());
    }
}

/// The bound of the payments from `i` on: that of payment `i` and of those after it.
proof fn lemma_draws_bound_step(available: Map<u64, Seq<u64>>, payments: Seq<PaymentView>, i: int)
    requires
        0 <= i < payments.len(),
    ensures
        draws_bound(available, payments.skip(i)) == rounds_bound(
            payments[i].amount,
            available[payments[i].nonce].len(),
        ) + draws_bound(available, payments.skip(i + 1)),
{
    assert(payments.skip(i).drop_first() =~= payments.skip(i + 1));
    assert(payments.skip(i)[0] == payments[i]);
}

/// The swap contract: it takes payments in one token and hands out, for each unit, one
/// unit of another token at a nonce drawn at random from those that the owner listed.
pub trait SwapEsdt: Sized {
    /// The contract's storage, as plain values.
    spec fn storage(&self) -> SwapEsdtView;

    /// Sets the token that the contract takes and the token that it hands out.
    fn init(&mut self, input_token: Vec<u8>, output_token: Vec<u8>)
        ensures
            final(self).storage().input_token == input_token@,
            final(self).storage().output_token == output_token@,
            final(self).storage().available == old(self).storage().available,
    ;

    /// The token that the contract takes.
    fn input_token(&self) -> (r: Vec<u8>)
        ensures
            r@ == self.storage().input_token,
    ;

    /// The token that the contract hands out.
    fn output_token(&self) -> (r: Vec<u8>)
        ensures
            r@ == self.storage().output_token,
    ;

    /// The output nonces still to hand out for `input_nonce`, in storage order.
    fn available_output_nonce(&self, input_nonce: u64) -> (r: Vec<u64>)
        ensures
            r@ == self.storage().available[input_nonce],
    ;

    /// Takes out of the list kept for `input_nonce` the output nonce that the random draw
    /// at `used` in `draws` picks, and returns it; fails where the list is empty.
    fn get_random_nonce(&mut self, input_nonce: u64, draws: &Vec<u32>, used: usize) -> (r:
        Result<u64, SwapError>)
        requires
            old(self).storage().available[input_nonce].len() <= u32::MAX,
            old(self).storage().available[input_nonce].len() > 0 ==> used < draws@.len(),
        ensures
            ({
                let pool = old(self).storage().available[input_nonce];
                if pool.len() == 0 {
                    &&& r == Err::<u64, SwapError>(SwapError::SwapNoOutputToken)
                    &&& final(self).storage() == old(self).storage()
                } else {
                    let i = draw_index(draws@[used as int], pool.len());
                    &&& r == Ok::<u64, SwapError>(pool[i])
                    &&& final(self).storage() == SwapEsdtView {
                        available: old(self).storage().available.insert(
                            input_nonce,
                            swap_remove_at(pool, i),
                        ),
                        ..old(self).storage()
                    }
                }
            }),
    ;

    /// A swap: `payment` units of `token` at `nonce` came with the call; for each unit the
    /// contract hands one random output nonce kept for `nonce` to the caller. The random
    /// draws are taken from `draws` in order. A failed swap changes nothing.
    fn swap(
        &mut self,
        ctx: &CallContext,
        balances: &mut Balances,
        payment: u128,
        token: &Vec<u8>,
        nonce: u64,
        draws: &Vec<u32>,
    ) -> (r: Result<Vec<Transfer>, SwapError>)
        requires
            token@ == old(self).storage().input_token ==> {
                &&& payment <= u64::MAX
                &&& old(self).storage().available[nonce].len() <= u32::MAX
                &&& rounds_bound(payment as nat, old(self).storage().available[nonce].len())
                    <= draws@.len()
            },
        ensures
            match swap_spec(
                old(self).storage(),
                old(balances)@,
                ctx.caller@,
                payment as nat,
                token@,
                nonce,
                draws@,
                0,
            ) {
                Ok(o) => {
                    &&& r is Ok
                    &&& final(self).storage() == o.state
                    &&& final(balances)@ == o.balances
                    &&& transfers_view(r->Ok_0@) == o.transfers
                },
                Err(e) => {
                    &&& r == Err::<Vec<Transfer>, SwapError>(e)
                    &&& final(self).storage() == old(self).storage()
                    &&& final(balances)@ == old(balances)@
                },
            },
    ;

    /// Swaps for each payment in turn, all with one stream of random draws; the first
    /// payment that fails fails the whole call, which then changes nothing.
    fn multi_swap(
        &mut self,
        ctx: &CallContext,
        balances: &mut Balances,
        payments: &Vec<Payment>,
        draws: &Vec<u32>,
    ) -> (r: Result<Vec<Transfer>, SwapError>)
        requires
            payments_in_range(old(self).storage(), payments_view(payments@)),
            draws_bound(old(self).storage().available, payments_view(payments@)) <= draws@.len(),
        ensures
            match multi_swap_spec(
                old(self).storage(),
                old(balances)@,
                ctx.caller@,
                payments_view(payments@),
                draws@,
                0,
            ) {
                Ok(o) => {
                    &&& r is Ok
                    &&& final(self).storage() == o.state
                    &&& final(balances)@ == o.balances
                    &&& transfers_view(r->Ok_0@) == o.transfers
                },
                Err(e) => {
                    &&& r == Err::<Vec<Transfer>, SwapError>(e)
                    &&& final(self).storage() == old(self).storage()
                    &&& final(balances)@ == old(balances)@
                },
            },
    ;

    /// The owner takes all that the contract holds of `token` at `nonce`.
    fn claim_tokens(
        &self,
        ctx: &CallContext,
        balances: &mut Balances,
        token: &Vec<u8>,
        nonce: u64,
    ) -> (r: Result<Vec<Transfer>, SwapError>)
        ensures
            match claim_tokens_spec(old(balances)@, ctx.caller@, ctx.owner@, token@, nonce) {
                Ok((b, t)) => {
                    &&& r is Ok
                    &&& final(balances)@ == b
                    &&& transfers_view(r->Ok_0@) == seq![t]
                },
                Err(e) => {
                    &&& r == Err::<Vec<Transfer>, SwapError>(e)
                    &&& final(balances)@ == old(balances)@
                },
            },
    ;

    /// The owner takes all that the contract holds of the input token at `nonce`.
    fn claim_inputs_tokens(&self, ctx: &CallContext, balances: &mut Balances, nonce: u64) -> (r:
        Result<Vec<Transfer>, SwapError>)
        ensures
            match claim_tokens_spec(
                old(balances)@,
                ctx.caller@,
                ctx.owner@,
                self.storage().input_token,
                nonce,
            ) {
                Ok((b, t)) => {
                    &&& r is Ok
                    &&& final(balances)@ == b
                    &&& transfers_view(r->Ok_0@) == seq![t]
                },
                Err(e) => {
                    &&& r == Err::<Vec<Transfer>, SwapError>(e)
                    &&& final(balances)@ == old(balances)@
                },
            },
    ;

    /// The owner takes back one unit of every output nonce kept for `input_nonce`, and the
    /// list is emptied; the call fails, changing nothing, where the contract holds too
    /// little for one of the transfers.
    fn claim_outputs_tokens(
        &mut self,
        ctx: &CallContext,
        balances: &mut Balances,
        input_nonce: u64,
    ) -> (r: Result<Vec<Transfer>, SwapError>)
        ensures
            match claim_outputs_spec(
                old(self).storage(),
                old(balances)@,
                ctx.caller@,
                ctx.owner@,
                input_nonce,
            ) {
                Ok(o) => {
                    &&& r is Ok
                    &&& final(self).storage() == o.state
                    &&& final(balances)@ == o.balances
                    &&& transfers_view(r->Ok_0@) == o.transfers
                },
                Err(e) => {
                    &&& r == Err::<Vec<Transfer>, SwapError>(e)
                    &&& final(self).storage() == old(self).storage()
                    &&& final(balances)@ == old(balances)@
                },
            },
    ;

    /// The owner adds output nonce `nonce` to the list kept for `input_nonce`, paying one
    /// unit of the output token at that nonce with the call.
    fn fill_output(
        &mut self,
        ctx: &CallContext,
        payment: u128,
        token: &Vec<u8>,
        nonce: u64,
        input_nonce: u64,
    ) -> (r: Result<(), SwapError>)
        ensures
            match fill_output_spec(
                old(self).storage(),
                ctx.caller@,
                ctx.owner@,
                payment as nat,
                token@,
                nonce,
                input_nonce,
            ) {
                Ok(s) => r is Ok && final(self).storage() == s,
                Err(e) => r == Err::<(), SwapError>(e) && final(self).storage() == old(self).storage(),
            },
    ;
}

impl SwapEsdt for ContractObj {
    open spec fn storage(&self) -> SwapEsdtView {
        self@
    }

    fn init(&mut self, input_token: Vec<u8>, output_token: Vec<u8>) {
        self.input_token = input_token;
        self.output_token = output_token;
    }

    fn input_token(&self) -> (r: Vec<u8>) {
        copy_bytes(&self.input_token)
    }

    fn output_token(&self) -> (r: Vec<u8>) {
        copy_bytes(&self.output_token)
    }

    fn available_output_nonce(&self, input_nonce: u64) -> (r: Vec<u64>) {
        self.available_output_nonce.get(input_nonce)
    }

    fn get_random_nonce(&mut self, input_nonce: u64, draws: &Vec<u32>, used: usize) -> (r:
        Result<u64, SwapError>) {
        let len = self.available_output_nonce.len_of(input_nonce);
        if len == 0 {
            return Err(SwapError::SwapNoOutputToken);
        }
        let range: u32 = len as u32;
        let index: usize = (draws[used] % range) as usize;
        let mut list = self.available_output_nonce.get(input_nonce);
        let n = list.swap_remove(index);
        self.available_output_nonce.set(input_nonce, list);
        Ok(n)
    }

    fn swap(
        &mut self,
        ctx: &CallContext,
        balances: &mut Balances,
        payment: u128,
        token: &Vec<u8>,
        nonce: u64,
        draws: &Vec<u32>,
    ) -> (r: Result<Vec<Transfer>, SwapError>) {
        let mut work = self.snapshot();
        let mut bal = balances.snapshot();
        match work.swap_in_place(ctx, &mut bal, payment, token, nonce, draws, 0) {
            Ok((transfers, _used)) => {
                *self = work;
                *balances = bal;
                Ok(transfers)
            },
            Err(e) => Err(e),
        }
    }

    fn multi_swap(
        &mut self,
        ctx: &CallContext,
        balances: &mut Balances,
        payments: &Vec<Payment>,
        draws: &Vec<u32>,
    ) -> (r: Result<Vec<Transfer>, SwapError>) {
        let ghost s0 = self@;
        let ghost b0 = balances@;
        let ghost pv = payments_view(payments@);
        let mut work = self.snapshot();
        let mut bal = balances.snapshot();
        let mut all: Vec<Transfer> = Vec::new();
        let mut used: usize = 0;
        let n = payments.len();
        let mut i: usize = 0;
        proof {
            assert(pv.skip(0) =~= pv);
            assert(transfers_view(all@) + Seq::<TransferView>::empty() =~= Seq::<TransferView>::empty());
        }
        while i < n
            invariant
                n == payments@.len(),
                pv == payments_view(payments@),
                i <= n,
                s0 == old(self)@,
                b0 == old(balances)@,
                payments_in_range(s0, pv),
                work@.input_token == s0.input_token,
                work@.output_token == s0.output_token,
                forall|k: u64| #[trigger] work@.available[k].len() <= s0.available[k].len(),
                used + draws_bound(work@.available, pv.skip(i as int)) <= draws@.len(),
                multi_swap_spec(s0, b0, ctx.caller@, pv, draws@, 0) == after_transfers(
                    transfers_view(all@),
                    multi_swap_spec(work@, bal@, ctx.caller@, pv.skip(i as int), draws@, used as nat),
                ),
            decreases n - i,
        {
            let p = &payments[i];
            let ghost w = work@;
            let ghost wb = bal@;
            proof {
                lemma_draws_bound_step(w.available, pv, i as int);
                assert(pv[i as int] == p@);
                assert(pv.skip(i as int).drop_first() =~= pv.skip(i + 1));
                assert(pv.skip(i as int)[0] == p@);
                if p.token@ == s0.input_token {
                    assert(w.available[p.nonce].len() <= s0.available[p.nonce].len());
                }
            }
            match work.swap_in_place(ctx, &mut bal, p.amount, &p.token, p.nonce, draws, used) {
                Ok((mut ts, u)) => {
                    proof {
                        lemma_swap_rounds_ok(
                            w.available[p.nonce],
                            wb,
                            w.output_token,
                            p.amount as nat,
                            draws@,
                            used as nat,
                        );
                        assert forall|k: u64| #[trigger] work@.available[k].len() <= s0.available[k].len() by {
                            assert(work@.available[k].len() <= w.available[k].len());
                        }
                        lemma_draws_bound_shrink(work@.available, w.available, pv.skip(i + 1));
                        let rest = multi_swap_spec(work@, bal@, ctx.caller@, pv.skip(i + 1), draws@, u as nat);
                        match rest {
                            Ok(o) => {
                                assert(transfers_view(all@) + (transfers_view(ts@) + o.transfers)
                                    =~= transfers_view(all@ + ts@) + o.transfers);
                            },
                            Err(e) => {},
                        }
                    }
                    all.append(&mut ts);
                    used = u;
                },
                Err(e) => {
                    return Err(e);
                },
            }
            i = i + 1;
        }
        proof {
            assert(pv.skip(n as int) =~= Seq::<PaymentView>::empty());
            assert(transfers_view(all@) + Seq::<TransferView>::empty() =~= transfers_view(all@));
        }
        *self = work;
        *balances = bal;
        Ok(all)
    }

    fn claim_tokens(
        &self,
        ctx: &CallContext,
        balances: &mut Balances,
        token: &Vec<u8>,
        nonce: u64,
    ) -> (r: Result<Vec<Transfer>, SwapError>) {
        if !bytes_eq(&ctx.caller, &ctx.owner) {
            return Err(SwapError::NotOwner);
        }
        let balance = balances.get(token, nonce);
        if balance == 0 {
            return Err(SwapError::ClaimInputBalanceEmpty);
        }
        balances.set(token, nonce, 0);
        let mut transfers: Vec<Transfer> = Vec::new();
        transfers.push(
            Transfer { to: copy_bytes(&ctx.owner), token: copy_bytes(token), nonce, amount: balance },
        );
        assert(transfers_view(transfers@) =~= seq![transfers@[0]@]);
        Ok(transfers)
    }

    fn claim_inputs_tokens(&self, ctx: &CallContext, balances: &mut Balances, nonce: u64) -> (r:
        Result<Vec<Transfer>, SwapError>) {
        if !bytes_eq(&ctx.caller, &ctx.owner) {
            return Err(SwapError::NotOwner);
        }
        self.claim_tokens(ctx, balances, &self.input_token, nonce)
    }

    fn claim_outputs_tokens(
        &mut self,
        ctx: &CallContext,
        balances: &mut Balances,
        input_nonce: u64,
    ) -> (r: Result<Vec<Transfer>, SwapError>) {
        if !bytes_eq(&ctx.caller, &ctx.owner) {
            return Err(SwapError::NotOwner);
        }
        let list = self.available_output_nonce.get(input_nonce);
        let mut bal = balances.snapshot();
        let n = list.len();
        let ghost b0 = balances@;
        proof {
            assert(list@.skip(0) =~= list@);
        }
        for j in 0..n
            invariant
                n == list@.len(),
                b0 == old(balances)@,
                self@ == old(self)@,
                list@ == old(self)@.available[input_nonce],
                ctx.caller@ == ctx.owner@,
                send_each(b0, self@.output_token, list@) == send_each(
                    bal@,
                    self@.output_token,
                    list@.skip(j as int),
                ),
        {
            proof {
                assert(list@.skip(j as int).drop_first() =~= list@.skip(j + 1));
                assert(list@.skip(j as int)[0] == list@[j as int]);
            }
            let held = bal.get(&self.output_token, list[j]);
            if held < 1 {
                proof {
                    assert(send_each(bal@, self@.output_token, list@.skip(j as int)) is None);
                }
                return Err(SwapError::InsufficientFunds);
            }
            bal.set(&self.output_token, list[j], held - 1);
        }
        proof {
            assert(list@.skip(n as int) =~= Seq::<u64>::empty());
        }
        let transfers = make_output_transfers(&ctx.owner, &self.output_token, &list);
        self.available_output_nonce.set(input_nonce, Vec::new());
        *balances = bal;
        Ok(transfers)
    }

    fn fill_output(
        &mut self,
        ctx: &CallContext,
        payment: u128,
        token: &Vec<u8>,
        nonce: u64,
        input_nonce: u64,
    ) -> (r: Result<(), SwapError>) {
        if !bytes_eq(token, &self.output_token) {
            return Err(SwapError::FillBadToken);
        }
        if !bytes_eq(&ctx.caller, &ctx.owner) {
            return Err(SwapError::NotOwner);
        }
        if payment != 1 {
            return Err(SwapError::FillBadPayment);
        }
        let mut list = self.available_output_nonce.get(input_nonce);
        list.push(nonce);
        self.available_output_nonce.set(input_nonce, list);
        Ok(())
    }
}

impl ContractObj {
    /// Replaces the list kept for `input_nonce`: a write of its storage.
    pub fn set_available_output_nonce(&mut self, input_nonce: u64, nonces: Vec<u64>)
        ensures
            final(self)@ == (SwapEsdtView {
                available: old(self)@.available.insert(input_nonce, nonces@),
                ..old(self)@
            }),
    {
        self.available_output_nonce.set(input_nonce, nonces);
    }

    /// The storage of a contract that has just been deployed: nothing set yet.
    pub fn new() -> (r: ContractObj)
        ensures
            r@.input_token == Seq::<u8>::empty(),
            r@.output_token == Seq::<u8>::empty(),
            r@.available == Map::new(|k: u64| true, |k: u64| Seq::<u64>::empty()),
    {
        ContractObj {
            input_token: Vec::new(),
            output_token: Vec::new(),
            available_output_nonce: NoncePools::new(),
        }
    }

    /// A copy of the storage.
    fn snapshot(&self) -> (r: ContractObj)
        ensures
            r@ == self@,
    {
        ContractObj {
            input_token: copy_bytes(&self.input_token),
            output_token: copy_bytes(&self.output_token),
            available_output_nonce: self.available_output_nonce.snapshot(),
        }
    }

    /// The swap of one payment, done in place: on success storage, holdings and the
    /// result are those of `swap_spec`; on failure storage and holdings are left in an
    /// unspecified state, for the caller to discard.
    fn swap_in_place(
        &mut self,
        ctx: &CallContext,
        balances: &mut Balances,
        payment: u128,
        token: &Vec<u8>,
        nonce: u64,
        draws: &Vec<u32>,
        start: usize,
    ) -> (r: Result<(Vec<Transfer>, usize), SwapError>)
        requires
            token@ == old(self)@.input_token ==> {
                &&& payment <= u64::MAX
                &&& old(self)@.available[nonce].len() <= u32::MAX
                &&& start + rounds_bound(payment as nat, old(self)@.available[nonce].len())
                    <= draws@.len()
            },
        ensures
            match swap_spec(
                old(self)@,
                old(balances)@,
                ctx.caller@,
                payment as nat,
                token@,
                nonce,
                draws@,
                start as nat,
            ) {
                Ok(o) => {
                    &&& r is Ok
                    &&& final(self)@ == o.state
                    &&& final(balances)@ == o.balances
                    &&& transfers_view(r->Ok_0.0@) == o.transfers
                    &&& r->Ok_0.1 == o.used
                },
                Err(e) => r == Err::<(Vec<Transfer>, usize), SwapError>(e),
            },
    {
        if !bytes_eq(token, &self.input_token) {
            return Err(SwapError::SwapBadToken);
        }
        let ghost s0 = self@;
        let ghost b0 = balances@;
        let count: u64 = payment as u64;
        assert(draws@.len() == draws.len());
        let mut sent: Vec<u64> = Vec::new();
        let mut used: usize = start;
        let mut i: u64 = 0;
        while i < count
            invariant
                i <= count,
                count == payment,
                s0 == old(self)@,
                b0 == old(balances)@,
                token@ == s0.input_token,
                draws@.len() <= usize::MAX,
                self@.input_token == s0.input_token,
                self@.output_token == s0.output_token,
                self@.available == s0.available.insert(nonce, self@.available[nonce]),
                self@.available[nonce].len() <= u32::MAX,
                used + rounds_bound((count - i) as nat, self@.available[nonce].len())
                    <= draws@.len(),
                swap_rounds(
                    s0.available[nonce],
                    b0,
                    s0.output_token,
                    payment as nat,
                    draws@,
                    start as nat,
                ) == after_sent(
                    sent@,
                    swap_rounds(
                        self@.available[nonce],
                        balances@,
                        s0.output_token,
                        (count - i) as nat,
                        draws@,
                        used as nat,
                    ),
                ),
            decreases count - i,
        {
            let ghost pool = self@.available[nonce];
            let ghost bal = balances@;
            let ghost c = (count - i) as nat;
            let n = match self.get_random_nonce(nonce, draws, used) {
                Ok(n) => n,
                Err(e) => {
                    proof {
                        assert(swap_rounds(pool, bal, s0.output_token, c, draws@, used as nat)
                            == Err::<SwapRounds, SwapError>(SwapError::SwapNoOutputToken));
                    }
                    return Err(e);
                },
            };
            assert(used < draws@.len());
            let held = balances.get(&self.output_token, n);
            if held < 1 {
                proof {
                    assert(swap_rounds(pool, bal, s0.output_token, c, draws@, used as nat)
                        == Err::<SwapRounds, SwapError>(SwapError::SwapNoOutputToken));
                }
                return Err(SwapError::SwapNoOutputToken);
            }
            balances.set(&self.output_token, n, held - 1);
            proof {
                let rest = swap_rounds(
                    self@.available[nonce],
                    balances@,
                    s0.output_token,
                    (count - i - 1) as nat,
                    draws@,
                    (used + 1) as nat,
                );
                assert(self@.available =~= s0.available.insert(nonce, self@.available[nonce]));
                match rest {
                    Ok(o) => {
                        assert(sent@ + (seq![n] + o.sent) =~= sent@.push(n) + o.sent);
                    },
                    Err(e) => {},
                }
            }
            sent.push(n);
            used = used + 1;
            i = i + 1;
        }
        proof {
            assert(sent@ + Seq::<u64>::empty() =~= sent@);
            assert(self@.available =~= s0.available.insert(nonce, self@.available[nonce]));
        }
        let transfers = make_output_transfers(&ctx.caller, &self.output_token, &sent);
        Ok((transfers, used))
    }

    /// How many random draws a multi-swap of `payments` can use at most: for each payment,
    /// its amount or the length of the list it draws from, whichever is smaller.
    pub fn draws_needed(&self, payments: &Vec<Payment>) -> (r: u128)
        ensures
            r == draws_bound(self@.available, payments_view(payments@)),
    {
        let ghost pv = payments_view(payments@);
        let n = payments.len();
        let mut acc: u128 = 0;
        let mut i: usize = 0;
        proof {
            assert(pv.skip(0) =~= pv);
        }
        while i < n
            invariant
                n == payments@.len(),
                n <= usize::MAX,
                pv == payments_view(payments@),
                i <= n,
                acc <= i * 0xffff_ffff_ffff_ffffnat,
                acc + draws_bound(self@.available, pv.skip(i as int)) == draws_bound(
                    self@.available,
                    pv,
                ),
            decreases n - i,
        {
            let p = &payments[i];
            let len = self.available_output_nonce.len_of(p.nonce) as u128;
            let bound = if p.amount <= len {
                p.amount
            } else {
                len
            };
            proof {
                lemma_draws_bound_step(self@.available, pv, i as int);
                assert(pv[i as int] == p@);
            }
            acc = acc + bound;
            i = i + 1;
        }
        proof {
            assert(pv.skip(n as int) =~= Seq::<PaymentView>::empty());
        }
        acc
    }
}

} // verus!
