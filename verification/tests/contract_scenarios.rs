use sc_swap_esdt::{Balances, CallContext, ContractObj, SwapEsdt, Transfer};
use sc_swap_esdt::{ERR_FILL_BAD_TOKEN, ERR_NOT_OWNER, ERR_SWAP_BAD_TOKEN, ERR_SWAP_NO_OUTPUT_TOKEN};

const INPUT_TOKEN: &[u8; 11] = b"INPUT-00000";
const OUTPUT_TOKEN: &[u8; 13] = b"OUTPUT-aaaaaa";
const INPUT_NONCE: u64 = 1;
const OUTPUT_NONCE: u64 = 1;

/// The contract, its account and the two user accounts of the scenarios.
struct Setup {
    contract: ContractObj,
    contract_account: Balances,
    owner_address: Vec<u8>,
    owner_account: Balances,
    user_lambda: Vec<u8>,
    user_account: Balances,
    draws: Vec<u32>,
}

fn setup_contract() -> Setup {
    let mut contract = ContractObj::new();
    contract.init(INPUT_TOKEN.to_vec(), OUTPUT_TOKEN.to_vec());
    Setup {
        contract,
        contract_account: Balances::new(),
        owner_address: b"owner".to_vec(),
        owner_account: Balances::new(),
        user_lambda: b"user_lambda".to_vec(),
        user_account: Balances::new(),
        draws: vec![7, 3, 11, 2, 5, 13, 1, 0],
    }
}

fn move_amount(from: &mut Balances, to: &mut Balances, token: &[u8], nonce: u64, amount: u128) {
    let token = token.to_vec();
    let held = from.get(&token, nonce);
    assert!(held >= amount, "the sender holds too little");
    from.set(&token, nonce, held - amount);
    let to_held = to.get(&token, nonce);
    to.set(&token, nonce, to_held + amount);
}

impl Setup {
    fn ctx(&self, caller: &[u8]) -> CallContext {
        CallContext { caller: caller.to_vec(), owner: self.owner_address.clone() }
    }

    fn account_of(&mut self, address: &[u8]) -> &mut Balances {
        if address == self.owner_address.as_slice() {
            &mut self.owner_account
        } else {
            &mut self.user_account
        }
    }

    fn deliver(&mut self, transfers: &[Transfer]) {
        for t in transfers {
            let to = t.to.clone();
            let held = self.account_of(&to).get(&t.token, t.nonce);
            self.account_of(&to).set(&t.token, t.nonce, held + t.amount);
        }
    }

    /// The owner pays `amount` of the output token at `nonce` into the contract and lists
    /// it for `input_nonce`.
    fn fill_output(&mut self, amount: u64, nonce: u64, input_nonce: u64) {
        let owner = self.owner_address.clone();
        self.fill_output_manual(&owner, OUTPUT_TOKEN, nonce, amount, input_nonce).unwrap();
    }

    fn fill_output_manual(
        &mut self,
        address: &[u8],
        token_id: &[u8],
        nonce: u64,
        balance: u64,
        input_nonce: u64,
    ) -> Result<(), &'static str> {
        let before = (self.contract_account.snapshot(), self.account_of(address).snapshot());
        let mut sender = self.account_of(address).snapshot();
        sender.set(&token_id.to_vec(), nonce, balance as u128);
        move_amount(&mut sender, &mut self.contract_account, token_id, nonce, balance as u128);
        let ctx = self.ctx(address);
        match self.contract.fill_output(&ctx, balance as u128, &token_id.to_vec(), nonce, input_nonce) {
            Ok(()) => {
                *self.account_of(address) = sender;
                Ok(())
            },
            Err(e) => {
                self.contract_account = before.0;
                *self.account_of(address) = before.1;
                Err(e.message())
            },
        }
    }

    /// The user pays `amount` of `token_id` at `nonce` into the contract and swaps it.
    fn swap(&mut self, token_id: &[u8], nonce: u64, amount: u64) -> Result<(), &'static str> {
        let before = self.contract_account.snapshot();
        let mut user = self.user_account.snapshot();
        user.set(&token_id.to_vec(), nonce, amount as u128);
        move_amount(&mut user, &mut self.contract_account, token_id, nonce, amount as u128);
        let ctx = self.ctx(&self.user_lambda.clone());
        let draws = self.draws.clone();
        match self.contract.swap(
            &ctx,
            &mut self.contract_account,
            amount as u128,
            &token_id.to_vec(),
            nonce,
            &draws,
        ) {
            Ok(transfers) => {
                self.user_account = user;
                self.deliver(&transfers);
                self.draws.rotate_left(1);
                Ok(())
            },
            Err(e) => {
                self.contract_account = before;
                Err(e.message())
            },
        }
    }

    fn claim_outputs(&mut self, caller: &[u8], input_nonce: u64) -> Result<(), &'static str> {
        let ctx = self.ctx(caller);
        match self.contract.claim_outputs_tokens(&ctx, &mut self.contract_account, input_nonce) {
            Ok(transfers) => {
                self.deliver(&transfers);
                Ok(())
            },
            Err(e) => Err(e.message()),
        }
    }
}

fn balance(account: &Balances, token: &[u8], nonce: u64) -> u128 {
    account.get(&token.to_vec(), nonce)
}

#[test]
fn should_swap() {
    let mut setup = setup_contract();

    let nonce = 1u64;
    setup.fill_output(1u64, 1u64, 1u64);

    let input_token = INPUT_TOKEN;
    assert_eq!(setup.swap(input_token, INPUT_NONCE, 1), Ok(()));

    assert_eq!(balance(&setup.user_account, input_token, INPUT_NONCE), 0);
    assert_eq!(balance(&setup.contract_account, input_token, INPUT_NONCE), 1);
    assert_eq!(balance(&setup.user_account, OUTPUT_TOKEN, nonce), 1);
}

#[test]
fn should_swap_twice() {
    let mut setup = setup_contract();

    setup.fill_output(1u64, 1u64, INPUT_NONCE);
    setup.fill_output(1u64, 2u64, INPUT_NONCE);

    let input_token = INPUT_TOKEN;
    assert_eq!(setup.swap(input_token, INPUT_NONCE, 2), Ok(()));

    assert_eq!(balance(&setup.user_account, input_token, INPUT_NONCE), 0);
    assert_eq!(balance(&setup.contract_account, input_token, INPUT_NONCE), 2);
    assert_eq!(balance(&setup.user_account, OUTPUT_TOKEN, 1u64), 1);
    assert_eq!(balance(&setup.user_account, OUTPUT_TOKEN, 2u64), 1);
}

#[test]
fn should_swap_five() {
    let mut setup = setup_contract();

    let nonces = [1u64, 2, 3];

    for n in nonces {
        setup.fill_output(1u64, n, 1u64);
    }

    let input_token = INPUT_TOKEN;

    for _ in nonces {
        assert_eq!(setup.swap(input_token, INPUT_NONCE, 1), Ok(()));
    }

    assert_eq!(balance(&setup.user_account, input_token, INPUT_NONCE), 0);
    assert_eq!(
        balance(&setup.contract_account, input_token, INPUT_NONCE),
        nonces.len() as u128
    );

    for n in nonces {
        assert_eq!(balance(&setup.user_account, OUTPUT_TOKEN, n), 1);
    }
}

#[test]
fn should_err_bad_token() {
    let mut setup = setup_contract();

    setup.fill_output(1u64, 1u64, 1u64);

    let bad_token = b"HEENOK-667";

    assert_ne!(bad_token.len(), INPUT_TOKEN.len());

    assert_eq!(setup.swap(bad_token, INPUT_NONCE, 1), Err(ERR_SWAP_BAD_TOKEN));
}

#[test]
fn should_err_no_output_token() {
    let mut setup = setup_contract();

    let token_id = INPUT_TOKEN;
    assert_eq!(setup.swap(token_id, INPUT_NONCE, 1), Err(ERR_SWAP_NO_OUTPUT_TOKEN));
}

#[test]
fn fill_while_not_owner() {
    let mut setup = setup_contract();

    let user = setup.user_lambda.clone();
    assert_eq!(
        setup.fill_output_manual(&user, OUTPUT_TOKEN, OUTPUT_NONCE, 1u64, INPUT_NONCE),
        Err(ERR_NOT_OWNER)
    );
}

#[test]
fn claim_output() {
    let mut setup = setup_contract();

    let nonce = 1u64;

    setup.fill_output(1u64, nonce, 1u64);
    setup.fill_output(1u64, nonce + 1, 2u64);

    let owner = setup.owner_address.clone();
    assert_eq!(setup.claim_outputs(&owner, 1u64), Ok(()));

    assert_eq!(balance(&setup.owner_account, OUTPUT_TOKEN, nonce), 1);
    assert_eq!(balance(&setup.contract_account, OUTPUT_TOKEN, nonce), 0);
    assert_eq!(balance(&setup.contract_account, OUTPUT_TOKEN, nonce + 1), 1);
}

#[test]
fn claim_output_while_not_owned() {
    let mut setup = setup_contract();

    let nonce = 1u64;

    setup.contract_account.set(&OUTPUT_TOKEN.to_vec(), nonce, 5);

    let user = setup.user_lambda.clone();
    assert_eq!(setup.claim_outputs(&user, 1u64), Err(ERR_NOT_OWNER));
}

#[test]
fn fill_while_bad_token() {
    let mut setup = setup_contract();

    let bad_token = b"HEENOK-667";

    assert_ne!(bad_token.len(), INPUT_TOKEN.len());

    let user = setup.user_lambda.clone();
    assert_eq!(
        setup.fill_output_manual(&user, bad_token, OUTPUT_NONCE, 1u64, INPUT_NONCE),
        Err(ERR_FILL_BAD_TOKEN)
    );
}
