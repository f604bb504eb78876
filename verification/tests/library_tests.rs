use sc_swap_esdt::{Balances, CallContext, ContractObj, Payment, SwapError, SwapEsdt, Transfer};
use sc_swap_esdt::{
    ERR_CLAIM_INPUT_BALANCE_EMPTY, ERR_FILL_BAD_PAYMENT, ERR_FILL_BAD_TOKEN,
    ERR_INSUFFICIENT_FUNDS, ERR_NOT_OWNER, ERR_SWAP_BAD_TOKEN, ERR_SWAP_NO_OUTPUT_TOKEN,
};

fn input() -> Vec<u8> {
    b"NEST-123456".to_vec()
}

fn output() -> Vec<u8> {
    b"PENGUIN-abcdef".to_vec()
}

fn owner() -> CallContext {
    CallContext { caller: b"owner".to_vec(), owner: b"owner".to_vec() }
}

fn stranger() -> CallContext {
    CallContext { caller: b"stranger".to_vec(), owner: b"owner".to_vec() }
}

fn deployed() -> ContractObj {
    let mut c = ContractObj::new();
    c.init(input(), output());
    c
}

/// A contract whose list for input nonce 7 holds `nonces`, each held once by the contract.
fn filled(nonces: &[u64]) -> (ContractObj, Balances) {
    let mut c = deployed();
    let mut b = Balances::new();
    for &n in nonces {
        let held = b.get(&output(), n);
        b.set(&output(), n, held + 1);
        c.fill_output(&owner(), 1, &output(), n, 7).unwrap();
    }
    (c, b)
}

fn one_out(to: &[u8], nonce: u64) -> Transfer {
    Transfer { to: to.to_vec(), token: output(), nonce, amount: 1 }
}

#[test]
fn init_sets_tokens_and_keeps_lists() {
    let mut c = ContractObj::new();
    assert_eq!(c.input_token(), Vec::<u8>::new());
    assert_eq!(c.available_output_nonce(7), Vec::<u64>::new());
    c.init(input(), output());
    assert_eq!(c.input_token(), input());
    assert_eq!(c.output_token(), output());
    c.fill_output(&owner(), 1, &output(), 3, 7).unwrap();
    c.init(b"OTHER-1".to_vec(), output());
    assert_eq!(c.input_token(), b"OTHER-1".to_vec());
    assert_eq!(c.available_output_nonce(7), vec![3]);
}

#[test]
fn fill_appends_in_order() {
    let (c, _) = filled(&[5, 9, 5]);
    assert_eq!(c.available_output_nonce(7), vec![5, 9, 5]);
    assert_eq!(c.available_output_nonce(8), Vec::<u64>::new());
}

#[test]
fn fill_refusals_change_nothing() {
    let (mut c, _) = filled(&[5]);
    assert_eq!(c.fill_output(&stranger(), 1, &output(), 6, 7), Err(SwapError::NotOwner));
    assert_eq!(c.fill_output(&owner(), 2, &output(), 6, 7), Err(SwapError::FillBadPayment));
    assert_eq!(c.fill_output(&owner(), 1, &input(), 6, 7), Err(SwapError::FillBadToken));
    assert_eq!(c.fill_output(&stranger(), 1, &input(), 6, 7), Err(SwapError::FillBadToken));
    assert_eq!(c.available_output_nonce(7), vec![5]);
}

#[test]
fn get_random_nonce_takes_the_drawn_entry() {
    let (mut c, _) = filled(&[10, 20, 30, 40]);
    // 9 % 4 == 1: the second entry leaves, the last takes its place.
    assert_eq!(c.get_random_nonce(7, &vec![9], 0), Ok(20));
    assert_eq!(c.available_output_nonce(7), vec![10, 40, 30]);
    // 5 % 3 == 2: the last entry leaves.
    assert_eq!(c.get_random_nonce(7, &vec![0, 5], 1), Ok(30));
    assert_eq!(c.available_output_nonce(7), vec![10, 40]);
    assert_eq!(c.get_random_nonce(8, &vec![], 0), Err(SwapError::SwapNoOutputToken));
}

#[test]
fn swap_hands_out_one_per_unit() {
    let (mut c, mut b) = filled(&[10, 20, 30]);
    let ctx = CallContext { caller: b"alice".to_vec(), owner: b"owner".to_vec() };
    // draws 4 % 3 == 1 takes 20 (list becomes 10, 30); 1 % 2 == 1 takes 30.
    let r = c.swap(&ctx, &mut b, 2, &input(), 7, &vec![4, 1]).unwrap();
    assert_eq!(r, vec![one_out(b"alice", 20), one_out(b"alice", 30)]);
    assert_eq!(c.available_output_nonce(7), vec![10]);
    assert_eq!(b.get(&output(), 10), 1);
    assert_eq!(b.get(&output(), 20), 0);
    assert_eq!(b.get(&output(), 30), 0);
}

#[test]
fn swap_of_zero_units_hands_out_nothing() {
    let (mut c, mut b) = filled(&[10]);
    assert_eq!(c.swap(&stranger(), &mut b, 0, &input(), 7, &vec![]), Ok(vec![]));
    assert_eq!(c.available_output_nonce(7), vec![10]);
}

#[test]
fn failed_swap_changes_nothing() {
    let (mut c, mut b) = filled(&[10, 20]);
    // Three units but only two listed nonces: the third round finds the list empty.
    assert_eq!(
        c.swap(&stranger(), &mut b, 3, &input(), 7, &vec![0, 0]),
        Err(SwapError::SwapNoOutputToken)
    );
    assert_eq!(c.available_output_nonce(7), vec![10, 20]);
    assert_eq!(b.get(&output(), 10), 1);
    assert_eq!(b.get(&output(), 20), 1);
    assert_eq!(
        c.swap(&stranger(), &mut b, 1, &b"OTHER-1".to_vec(), 7, &vec![0]),
        Err(SwapError::SwapBadToken)
    );
}

#[test]
fn swap_fails_where_the_contract_no_longer_holds_the_drawn_nonce() {
    let (mut c, mut b) = filled(&[10]);
    b.set(&output(), 10, 0);
    assert_eq!(
        c.swap(&stranger(), &mut b, 1, &input(), 7, &vec![0]),
        Err(SwapError::SwapNoOutputToken)
    );
    assert_eq!(c.available_output_nonce(7), vec![10]);
}

#[test]
fn swap_from_single_entry_whatever_the_draw() {
    for draw in [0u32, 1, 77, u32::MAX] {
        let (mut c, mut b) = filled(&[42]);
        let r = c.swap(&stranger(), &mut b, 1, &input(), 7, &vec![draw]).unwrap();
        assert_eq!(r, vec![one_out(b"stranger", 42)]);
        assert_eq!(c.available_output_nonce(7), Vec::<u64>::new());
    }
}

#[test]
fn swap_keeps_every_nonce_exactly_once() {
    let (mut c, mut b) = filled(&[1, 2, 3, 4, 5, 6]);
    let r = c.swap(&stranger(), &mut b, 4, &input(), 7, &vec![11, 2, 9, 4]).unwrap();
    let mut all: Vec<u64> = r.iter().map(|t| t.nonce).collect();
    all.extend(c.available_output_nonce(7));
    all.sort();
    assert_eq!(all, vec![1, 2, 3, 4, 5, 6]);
}

#[test]
fn multi_swap_runs_payments_in_turn() {
    let mut c = deployed();
    let mut b = Balances::new();
    for (n, k) in [(10u64, 1u64), (20, 2), (30, 2)] {
        b.set(&output(), n, 1);
        c.fill_output(&owner(), 1, &output(), n, k).unwrap();
    }
    let payments = vec![
        Payment { token: input(), nonce: 2, amount: 1 },
        Payment { token: input(), nonce: 1, amount: 1 },
        Payment { token: input(), nonce: 2, amount: 1 },
    ];
    assert_eq!(c.draws_needed(&payments), 3);
    // first draw 1 % 2 == 1 picks 30; then 10; then 20.
    let r = c.multi_swap(&stranger(), &mut b, &payments, &vec![1, 0, 0]).unwrap();
    assert_eq!(r, vec![one_out(b"stranger", 30), one_out(b"stranger", 10), one_out(b"stranger", 20)]);
    assert_eq!(c.available_output_nonce(1), Vec::<u64>::new());
    assert_eq!(c.available_output_nonce(2), Vec::<u64>::new());
}

#[test]
fn multi_swap_fails_whole() {
    let (mut c, mut b) = filled(&[10, 20]);
    let payments = vec![
        Payment { token: input(), nonce: 7, amount: 1 },
        Payment { token: b"OTHER-1".to_vec(), nonce: 7, amount: 1 },
    ];
    assert_eq!(c.multi_swap(&stranger(), &mut b, &payments, &vec![0, 0]), Err(SwapError::SwapBadToken));
    assert_eq!(c.available_output_nonce(7), vec![10, 20]);
    assert_eq!(b.get(&output(), 10), 1);
}

#[test]
fn multi_swap_of_one_payment_is_a_swap() {
    let (mut c1, mut b1) = filled(&[10, 20, 30]);
    let (mut c2, mut b2) = filled(&[10, 20, 30]);
    let draws = vec![5, 8];
    let p = Payment { token: input(), nonce: 7, amount: 2 };
    let r1 = c1.multi_swap(&stranger(), &mut b1, &vec![p], &draws);
    let r2 = c2.swap(&stranger(), &mut b2, 2, &input(), 7, &draws);
    assert_eq!(r1, r2);
    assert_eq!(c1.available_output_nonce(7), c2.available_output_nonce(7));
}

#[test]
fn draws_needed_takes_the_smaller_of_amount_and_list() {
    let (c, _) = filled(&[1, 2, 3]);
    let payments = vec![
        Payment { token: input(), nonce: 7, amount: 10 },
        Payment { token: input(), nonce: 8, amount: 4 },
        Payment { token: input(), nonce: 7, amount: 2 },
    ];
    assert_eq!(c.draws_needed(&payments), 5);
    assert_eq!(c.draws_needed(&vec![]), 0);
}

#[test]
fn claim_outputs_returns_every_listed_nonce() {
    let (mut c, mut b) = filled(&[10, 20, 10]);
    let held = b.get(&output(), 10);
    assert_eq!(held, 2);
    let r = c.claim_outputs_tokens(&owner(), &mut b, 7).unwrap();
    assert_eq!(r, vec![one_out(b"owner", 10), one_out(b"owner", 20), one_out(b"owner", 10)]);
    assert_eq!(c.available_output_nonce(7), Vec::<u64>::new());
    assert_eq!(b.get(&output(), 10), 0);
    // the list is empty: a swap now fails
    assert_eq!(
        c.swap(&stranger(), &mut b, 1, &input(), 7, &vec![0]),
        Err(SwapError::SwapNoOutputToken)
    );
}

#[test]
fn claim_outputs_refusals() {
    let (mut c, mut b) = filled(&[10, 20]);
    assert_eq!(c.claim_outputs_tokens(&stranger(), &mut b, 7), Err(SwapError::NotOwner));
    b.set(&output(), 20, 0);
    assert_eq!(c.claim_outputs_tokens(&owner(), &mut b, 7), Err(SwapError::InsufficientFunds));
    assert_eq!(c.available_output_nonce(7), vec![10, 20]);
    assert_eq!(b.get(&output(), 10), 1);
}

#[test]
fn claim_tokens_takes_all_once() {
    let c = deployed();
    let mut b = Balances::new();
    b.set(&input(), 3, 25);
    let r = c.claim_inputs_tokens(&owner(), &mut b, 3).unwrap();
    assert_eq!(r, vec![Transfer { to: b"owner".to_vec(), token: input(), nonce: 3, amount: 25 }]);
    assert_eq!(b.get(&input(), 3), 0);
    assert_eq!(c.claim_inputs_tokens(&owner(), &mut b, 3), Err(SwapError::ClaimInputBalanceEmpty));
    assert_eq!(c.claim_inputs_tokens(&stranger(), &mut b, 3), Err(SwapError::NotOwner));
    b.set(&output(), 4, 2);
    let r = c.claim_tokens(&owner(), &mut b, &output(), 4).unwrap();
    assert_eq!(r, vec![Transfer { to: b"owner".to_vec(), token: output(), nonce: 4, amount: 2 }]);
}

#[test]
fn balances_read_back_what_was_set() {
    let mut b = Balances::new();
    assert_eq!(b.get(&output(), 1), 0);
    b.set(&output(), 1, 7);
    b.set(&input(), 1, 9);
    b.set(&output(), 1, 8);
    assert_eq!(b.get(&output(), 1), 8);
    assert_eq!(b.get(&input(), 1), 9);
    assert_eq!(b.get(&output(), 2), 0);
    let copy = b.snapshot();
    b.set(&input(), 1, 0);
    assert_eq!(copy.get(&input(), 1), 9);
}

#[test]
fn error_messages() {
    assert_eq!(SwapError::NotOwner.message(), ERR_NOT_OWNER);
    assert_eq!(SwapError::NotOwner.message(), "Endpoint can only be called by owner");
    assert_eq!(SwapError::SwapBadToken.message(), ERR_SWAP_BAD_TOKEN);
    assert_eq!(SwapError::SwapNoOutputToken.message(), ERR_SWAP_NO_OUTPUT_TOKEN);
    assert_eq!(SwapError::FillBadToken.message(), ERR_FILL_BAD_TOKEN);
    assert_eq!(SwapError::FillBadPayment.message(), ERR_FILL_BAD_PAYMENT);
    assert_eq!(SwapError::FillBadPayment.message(), "You can only fill with NFT.");
    assert_eq!(SwapError::ClaimInputBalanceEmpty.message(), ERR_CLAIM_INPUT_BALANCE_EMPTY);
    assert_eq!(SwapError::InsufficientFunds.message(), ERR_INSUFFICIENT_FUNDS);
}
