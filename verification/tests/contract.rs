//! The contract at work: calls go through a test host, with its storage, its
//! signatures and its tokens.
#![allow(deprecated)]

use soroban_sdk::testutils::{
    Address as _, ContractFunctionSet, EnvTestConfig, Events as _, Ledger as _,
};
use soroban_sdk::{
    token, Address, Env, Error, IntoVal, InvokeError, String, Symbol, TryFromVal, Val,
};
use stellar_micropay_contract::accrual::total_claimed;
use stellar_micropay_contract::{
    Action, Answer, ContractError, Escrow, EscrowStatus, Failure, LegacyReceiptMetadata,
    MicroPayContract, Party, ReceiptMetadata, Stream, TipRecord, Trap, EVENT_SCHEMA_VERSION,
    MAX_RECEIPT_MEMO_BYTES, MIN_STREAM_DEPOSIT, SCHEMA_VERSION,
};

/// A host that keeps nothing when it is done.
fn new_env() -> Env {
    let mut config = EnvTestConfig::default();
    config.capture_snapshot_at_drop = false;
    Env::new_with_config(config)
}

/// The contract as the test host calls it.
struct Host;

fn arg<T: TryFromVal<Env, Val>>(env: &Env, args: &[Val], index: usize) -> T {
    match T::try_from_val(env, &args[index]) {
        Ok(value) => value,
        Err(_) => panic!("argument {} is of another type", index),
    }
}

fn address_of(env: &Env, party: &Party) -> Address {
    match party {
        Party::Contract => env.current_contract_address(),
        Party::Account(address) => address.clone(),
    }
}

fn perform(env: &Env, action: &Action) {
    match action {
        Action::Transfer { token, from, to, amount } => {
            let from = address_of(env, from);
            let to = address_of(env, to);
            token::Client::new(env, token).transfer(&from, &to, amount);
        }
        Action::Publish { version, event } => {
            let topics = soroban_sdk::Vec::from_slice(env, &event.topics(env));
            env.events().publish(topics, event.data(env, *version));
        }
    }
}

/// Carries out what a call asks for, and gives what it returns.
fn finish<T: IntoVal<Env, Val>>(env: &Env, answer: Answer<T>) -> Option<Val> {
    if let Some(signer) = &answer.signer {
        signer.require_auth();
    }
    match answer.outcome {
        Err(Failure::Trap(trap)) => panic!("{}", trap.message()),
        Err(Failure::Error(error)) => Some(Error::from_contract_error(error.code()).into_val(env)),
        Ok(value) => {
            for action in answer.actions.iter() {
                perform(env, action);
            }
            Some(value.into_val(env))
        }
    }
}

fn give<T: IntoVal<Env, Val>>(env: &Env, read: Result<T, Trap>) -> Option<Val> {
    match read {
        Ok(value) => Some(value.into_val(env)),
        Err(trap) => panic!("{}", trap.message()),
    }
}

impl ContractFunctionSet for Host {
    fn call(&self, func: &str, env: Env, args: &[Val]) -> Option<Val> {
        let mut e = env.clone();
        let a = |index: usize| -> Address { arg(&env, args, index) };
        let n = |index: usize| -> u32 { arg(&env, args, index) };
        let m = |index: usize| -> i128 { arg(&env, args, index) };
        match func {
            "initialize" => finish(&env, MicroPayContract::initialize(&mut e, a(0))),
            "transfer_admin" => finish(&env, MicroPayContract::transfer_admin(&mut e, a(0), a(1))),
            "send_tip" => finish(&env, MicroPayContract::send_tip(&mut e, a(0), a(1), a(2), m(3))),
            "get_tip_total" => give(&env, MicroPayContract::get_tip_total(&mut e, a(0))),
            "get_tip_count" => give(&env, MicroPayContract::get_tip_count(&mut e, a(0))),
            "get_admin" => give(&env, MicroPayContract::get_admin(&mut e)),
            "mint_receipt" => finish(
                &env,
                MicroPayContract::mint_receipt(&mut e, a(0), a(1), m(2), arg(&env, args, 3)),
            ),
            "get_receipt_count" => give(&env, MicroPayContract::get_receipt_count(&mut e, a(0))),
            "create_escrow" => finish(
                &env,
                MicroPayContract::create_escrow(&mut e, a(0), a(1), a(2), m(3), n(4)),
            ),
            "claim_escrow" => finish(&env, MicroPayContract::claim_escrow(&mut e, n(0))),
            "cancel_escrow" => finish(&env, MicroPayContract::cancel_escrow(&mut e, n(0))),
            "get_escrow_count" => give(&env, MicroPayContract::get_escrow_count(&e)),
            "list_escrow_ids_for_sender" => give(
                &env,
                MicroPayContract::list_escrow_ids_for_sender(&mut e, a(0), n(1), n(2)),
            ),
            "list_escrow_ids_for_recipient" => give(
                &env,
                MicroPayContract::list_escrow_ids_for_recipient(&mut e, a(0), n(1), n(2)),
            ),
            "get_escrow_sender_count" => {
                give(&env, MicroPayContract::get_escrow_sender_count(&mut e, a(0)))
            }
            "get_escrow_recipient_count" => {
                give(&env, MicroPayContract::get_escrow_recipient_count(&mut e, a(0)))
            }
            "batch_send" => {
                let recipients: soroban_sdk::Vec<Address> = arg(&env, args, 2);
                let amounts: soroban_sdk::Vec<i128> = arg(&env, args, 3);
                finish(
                    &env,
                    MicroPayContract::batch_send(&mut e, a(0), a(1), recipients, amounts),
                )
            }
            "open_stream" => finish(
                &env,
                MicroPayContract::open_stream(
                    &mut e,
                    a(0),
                    a(1),
                    arg(&env, args, 2),
                    arg(&env, args, 3),
                    m(4),
                    m(5),
                ),
            ),
            "claim_stream" => finish(&env, MicroPayContract::claim_stream(&mut e, n(0), a(1))),
            "top_up_stream" => {
                finish(&env, MicroPayContract::top_up_stream(&mut e, n(0), a(1), m(2)))
            }
            "pause_stream" => finish(&env, MicroPayContract::pause_stream(&mut e, n(0), a(1))),
            "resume_stream" => finish(&env, MicroPayContract::resume_stream(&mut e, n(0), a(1))),
            "close_stream" => finish(&env, MicroPayContract::close_stream(&mut e, n(0), a(1))),
            "get_claimable" => give(&env, MicroPayContract::get_claimable(&e, n(0), a(1))),
            "get_stream_count" => give(&env, MicroPayContract::get_stream_count(&e)),
            "get_schema_version" => give(&env, MicroPayContract::get_schema_version(&e)),
            "migrate" => finish(&env, MicroPayContract::migrate(&mut e, a(0))),
            _ => None,
        }
    }
}

/// Calls the contract at an address.
struct Client<'a> {
    env: &'a Env,
    id: Address,
}

fn contract_error(error: Error) -> Option<ContractError> {
    let all = [
        ContractError::AlreadyInitialized,
        ContractError::SchemaAlreadyCurrent,
        ContractError::SchemaDowngrade,
        ContractError::EscrowClaimTooEarly,
        ContractError::EscrowCancelTooLate,
        ContractError::ReceiptMemoTooLong,
    ];
    all.iter().find(|known| Error::from_contract_error(known.code()) == error).copied()
}

fn read<T>(result: Result<T, Trap>) -> T {
    match result {
        Ok(value) => value,
        Err(trap) => panic!("{}", trap.message()),
    }
}

impl<'a> Client<'a> {
    fn new(env: &'a Env, id: &Address) -> Self {
        Client { env, id: id.clone() }
    }

    fn val<T: IntoVal<Env, Val> + Clone>(&self, value: &T) -> Val {
        value.clone().into_val(self.env)
    }

    fn call<T: TryFromVal<Env, Val>>(&self, name: &str, args: &[Val]) -> T {
        let args = soroban_sdk::Vec::from_slice(self.env, args);
        self.env.invoke_contract(&self.id, &Symbol::new(self.env, name), args)
    }

    fn try_call<T: TryFromVal<Env, Val>>(
        &self,
        name: &str,
        args: &[Val],
    ) -> Result<T, Result<ContractError, InvokeError>> {
        let args = soroban_sdk::Vec::from_slice(self.env, args);
        let name = Symbol::new(self.env, name);
        match self.env.try_invoke_contract::<T, Error>(&self.id, &name, args) {
            Ok(Ok(value)) => Ok(value),
            Ok(Err(_)) => panic!("the result is of another type"),
            Err(Ok(error)) => Err(contract_error(error).ok_or(InvokeError::Abort)),
            Err(Err(error)) => Err(Err(error)),
        }
    }

    fn inside<T>(&self, work: impl FnOnce(&mut Env) -> T) -> T {
        let mut env = self.env.clone();
        self.env.as_contract(&self.id, || work(&mut env))
    }

    fn initialize(&self, admin: &Address) {
        self.call("initialize", &[self.val(admin)])
    }

    fn try_initialize(&self, admin: &Address) -> Result<(), Result<ContractError, InvokeError>> {
        self.try_call("initialize", &[self.val(admin)])
    }

    fn transfer_admin(&self, current_admin: &Address, new_admin: &Address) {
        self.call("transfer_admin", &[self.val(current_admin), self.val(new_admin)])
    }

    fn send_tip(&self, token: &Address, from: &Address, to: &Address, amount: &i128) {
        self.call(
            "send_tip",
            &[self.val(token), self.val(from), self.val(to), self.val(amount)],
        )
    }

    fn get_tip_total(&self, recipient: &Address) -> i128 {
        self.call("get_tip_total", &[self.val(recipient)])
    }

    fn get_tip_count(&self, recipient: &Address) -> u32 {
        self.call("get_tip_count", &[self.val(recipient)])
    }

    fn get_admin(&self) -> Address {
        self.call("get_admin", &[])
    }

    fn get_tip_record(&self, recipient: &Address, index: &u32) -> TipRecord {
        self.inside(|env| read(MicroPayContract::get_tip_record(env, recipient.clone(), *index)))
    }

    fn mint_receipt(&self, from: &Address, to: &Address, amount: &i128, memo: &String) -> u32 {
        self.call(
            "mint_receipt",
            &[self.val(from), self.val(to), self.val(amount), self.val(memo)],
        )
    }

    fn try_mint_receipt(
        &self,
        from: &Address,
        to: &Address,
        amount: &i128,
        memo: &String,
    ) -> Result<u32, Result<ContractError, InvokeError>> {
        self.try_call(
            "mint_receipt",
            &[self.val(from), self.val(to), self.val(amount), self.val(memo)],
        )
    }

    fn get_receipt_count(&self, payer: &Address) -> u32 {
        self.call("get_receipt_count", &[self.val(payer)])
    }

    fn get_receipt(&self, payer: &Address, index: &u32) -> ReceiptMetadata {
        self.inside(|env| read(MicroPayContract::get_receipt(env, payer.clone(), *index)))
    }

    fn get_legacy_receipt(&self, payer: &Address, index: &u32) -> LegacyReceiptMetadata {
        self.inside(|env| read(MicroPayContract::get_legacy_receipt(env, payer.clone(), *index)))
    }

    fn create_escrow(
        &self,
        token: &Address,
        from: &Address,
        to: &Address,
        amount: &i128,
        release_ledger: &u32,
    ) -> u32 {
        self.call(
            "create_escrow",
            &[
                self.val(token),
                self.val(from),
                self.val(to),
                self.val(amount),
                self.val(release_ledger),
            ],
        )
    }

    fn claim_escrow(&self, id: &u32) {
        self.call("claim_escrow", &[self.val(id)])
    }

    fn try_claim_escrow(&self, id: &u32) -> Result<(), Result<ContractError, InvokeError>> {
        self.try_call("claim_escrow", &[self.val(id)])
    }

    fn cancel_escrow(&self, id: &u32) {
        self.call("cancel_escrow", &[self.val(id)])
    }

    fn try_cancel_escrow(&self, id: &u32) -> Result<(), Result<ContractError, InvokeError>> {
        self.try_call("cancel_escrow", &[self.val(id)])
    }

    fn get_escrow(&self, id: &u32) -> Escrow {
        self.inside(|env| read(MicroPayContract::get_escrow(env, *id)))
    }

    fn get_escrow_count(&self) -> u32 {
        self.call("get_escrow_count", &[])
    }

    fn list_escrow_ids_for_sender(
        &self,
        sender: &Address,
        offset: &u32,
        limit: &u32,
    ) -> soroban_sdk::Vec<u32> {
        self.call(
            "list_escrow_ids_for_sender",
            &[self.val(sender), self.val(offset), self.val(limit)],
        )
    }

    fn list_escrow_ids_for_recipient(
        &self,
        recipient: &Address,
        offset: &u32,
        limit: &u32,
    ) -> soroban_sdk::Vec<u32> {
        self.call(
            "list_escrow_ids_for_recipient",
            &[self.val(recipient), self.val(offset), self.val(limit)],
        )
    }

    fn get_escrow_sender_count(&self, sender: &Address) -> u32 {
        self.call("get_escrow_sender_count", &[self.val(sender)])
    }

    fn get_escrow_recipient_count(&self, recipient: &Address) -> u32 {
        self.call("get_escrow_recipient_count", &[self.val(recipient)])
    }

    fn batch_send(
        &self,
        token: &Address,
        from: &Address,
        recipients: &soroban_sdk::Vec<Address>,
        amounts: &soroban_sdk::Vec<i128>,
    ) {
        self.call(
            "batch_send",
            &[self.val(token), self.val(from), self.val(recipients), self.val(amounts)],
        )
    }

    fn open_stream(
        &self,
        token: &Address,
        payer: &Address,
        recipients: &soroban_sdk::Vec<Address>,
        weights: &soroban_sdk::Vec<u32>,
        rate_per_ledger: &i128,
        deposit: &i128,
    ) -> u32 {
        self.call(
            "open_stream",
            &[
                self.val(token),
                self.val(payer),
                self.val(recipients),
                self.val(weights),
                self.val(rate_per_ledger),
                self.val(deposit),
            ],
        )
    }

    fn claim_stream(&self, stream_id: &u32, recipient: &Address) -> i128 {
        self.call("claim_stream", &[self.val(stream_id), self.val(recipient)])
    }

    fn top_up_stream(&self, stream_id: &u32, payer: &Address, amount: &i128) {
        self.call(
            "top_up_stream",
            &[self.val(stream_id), self.val(payer), self.val(amount)],
        )
    }

    fn pause_stream(&self, stream_id: &u32, payer: &Address) {
        self.call("pause_stream", &[self.val(stream_id), self.val(payer)])
    }

    fn resume_stream(&self, stream_id: &u32, payer: &Address) {
        self.call("resume_stream", &[self.val(stream_id), self.val(payer)])
    }

    fn close_stream(&self, stream_id: &u32, payer: &Address) {
        self.call("close_stream", &[self.val(stream_id), self.val(payer)])
    }

    fn get_stream(&self, stream_id: &u32) -> Stream {
        self.inside(|env| read(MicroPayContract::get_stream(env, *stream_id)))
    }

    fn get_claimable(&self, stream_id: &u32, recipient: &Address) -> i128 {
        self.call("get_claimable", &[self.val(stream_id), self.val(recipient)])
    }

    fn get_stream_count(&self) -> u32 {
        self.call("get_stream_count", &[])
    }

    fn get_schema_version(&self) -> u32 {
        self.call("get_schema_version", &[])
    }

    fn migrate(&self, admin: &Address) -> u32 {
        self.call("migrate", &[self.val(admin)])
    }

    fn try_migrate(&self, admin: &Address) -> Result<u32, Result<ContractError, InvokeError>> {
        self.try_call("migrate", &[self.val(admin)])
    }
}

#[test]
fn test_initialize() {
    let env = new_env();
    let contract_id = env.register(Host, ());
    let client = Client::new(&env, &contract_id);

    let admin = Address::generate(&env);
    client.initialize(&admin);

    assert_eq!(client.get_admin(), admin);
}

#[test]
fn test_initialize_emits_init_event() {

    let env = new_env();
    let contract_id = env.register(Host, ());
    let client = Client::new(&env, &contract_id);

    let admin = Address::generate(&env);
    client.initialize(&admin);

    // initialize() should publish exactly one event: (init,) -> admin.
    assert_eq!(
        env.events().all(),
        soroban_sdk::Vec::from_array(
            &env,
            [
            (
                contract_id.clone(),
                (Symbol::new(&env, "init"),).into_val(&env),
                (EVENT_SCHEMA_VERSION, admin).into_val(&env),
            ),
            ]
        )
    );
}

/// initialize() must return Err(AlreadyInitialized) on re-init,
/// not panic. try_initialize is testable without aborting the harness.
#[test]
fn test_double_initialize_returns_error() {
    let env = new_env();
    let contract_id = env.register(Host, ());
    let client = Client::new(&env, &contract_id);

    let admin = Address::generate(&env);
    client.initialize(&admin);

    let result = client.try_initialize(&admin);
    assert!(result.is_err(), "second initialize() must return an error");
    assert_eq!(
        result.unwrap_err().unwrap(),
        ContractError::AlreadyInitialized,
    );
}

#[test]
fn test_mint_receipt() {
    let env = new_env();
    let contract_id = env.register(Host, ());
    let client = Client::new(&env, &contract_id);

    let admin = Address::generate(&env);
    client.initialize(&admin);

    let payer = Address::generate(&env);
    let payee = Address::generate(&env);

    env.mock_all_auths();

    let memo = String::from_str(&env, "Rent");
    let receipt_id = client.mint_receipt(&payer, &payee, &1000, &memo);
    assert_eq!(receipt_id, 0);

    assert_eq!(client.get_receipt_count(&payer), 1);

    let stored = client.get_receipt(&payer, &0);
    assert_eq!(stored.from, payer);
    assert_eq!(stored.to, payee);
    assert_eq!(stored.amount, 1000);
    assert_eq!(stored.memo, memo);
}

#[test]
fn test_receipt_count_tracks_multiple_mints() {
    let env = new_env();
    let contract_id = env.register(Host, ());
    let client = Client::new(&env, &contract_id);

    let admin = Address::generate(&env);
    client.initialize(&admin);

    let payer = Address::generate(&env);
    let payee1 = Address::generate(&env);
    let payee2 = Address::generate(&env);

    env.mock_all_auths();

    let id1 = client.mint_receipt(&payer, &payee1, &500, &String::from_str(&env, "Coffee"));
    let id2 = client.mint_receipt(&payer, &payee2, &1500, &String::from_str(&env, "Invoice"));

    assert_eq!(id1, 0);
    assert_eq!(id2, 1);
    assert_eq!(client.get_receipt_count(&payer), 2);
}

#[test]
fn test_receipt_memo_accepts_unicode_and_exact_byte_cap() {
    let env = new_env();
    let contract_id = env.register(Host, ());
    let client = Client::new(&env, &contract_id);
    let admin = Address::generate(&env);
    client.initialize(&admin);
    let payer = Address::generate(&env);
    let payee = Address::generate(&env);
    env.mock_all_auths();

    let unicode = String::from_str(&env, "Café ☕ — 谢谢");
    let unicode_id = client.mint_receipt(&payer, &payee, &100, &unicode);
    assert_eq!(client.get_receipt(&payer, &unicode_id).memo, unicode);

    let max_bytes = [b'x'; MAX_RECEIPT_MEMO_BYTES as usize];
    let max_memo = String::from_bytes(&env, &max_bytes);
    let max_id = client.mint_receipt(&payer, &payee, &100, &max_memo);
    assert_eq!(
        client.get_receipt(&payer, &max_id).memo.len(),
        MAX_RECEIPT_MEMO_BYTES
    );
}

#[test]
fn test_receipt_memo_rejects_more_than_byte_cap() {
    let env = new_env();
    let contract_id = env.register(Host, ());
    let client = Client::new(&env, &contract_id);
    let admin = Address::generate(&env);
    client.initialize(&admin);
    let payer = Address::generate(&env);
    let payee = Address::generate(&env);
    env.mock_all_auths();

    let too_many_bytes = [b'x'; MAX_RECEIPT_MEMO_BYTES as usize + 1];
    let result = client.try_mint_receipt(
        &payer,
        &payee,
        &100,
        &String::from_bytes(&env, &too_many_bytes),
    );
    assert_eq!(
        result.unwrap_err().unwrap(),
        ContractError::ReceiptMemoTooLong
    );
    assert_eq!(client.get_receipt_count(&payer), 0);
}

#[test]
fn test_tip_totals_start_at_zero() {
    let env = new_env();
    let contract_id = env.register(Host, ());
    let client = Client::new(&env, &contract_id);

    let admin = Address::generate(&env);
    client.initialize(&admin);

    let recipient = Address::generate(&env);
    assert_eq!(client.get_tip_total(&recipient), 0);
    assert_eq!(client.get_tip_count(&recipient), 0);
}

// ── Helper: deploy a SAC token, mint `amount` to `to`, return token address ──
fn create_token(env: &Env, admin: &Address, to: &Address, amount: i128) -> Address {
    let token_id = env
        .register_stellar_asset_contract_v2(admin.clone())
        .address();
    let sac = token::StellarAssetClient::new(env, &token_id);
    sac.mint(to, &amount);
    token_id
}

#[test]
fn test_send_tip_stores_record() {
    let env = new_env();
    let contract_id = env.register(Host, ());
    let client = Client::new(&env, &contract_id);

    let admin = Address::generate(&env);
    client.initialize(&admin);

    let from = Address::generate(&env);
    let to = Address::generate(&env);
    let amount: i128 = 500;

    env.mock_all_auths();
    let token_id = create_token(&env, &admin, &from, amount);
    client.send_tip(&token_id, &from, &to, &amount);

    let record = client.get_tip_record(&to, &0);
    assert_eq!(record.from, from);
    assert_eq!(record.to, to);
    assert_eq!(record.amount, amount);
    assert_eq!(record.ledger, env.ledger().sequence());
}

#[test]
fn test_send_tip_increments_totals() {
    let env = new_env();
    let contract_id = env.register(Host, ());
    let client = Client::new(&env, &contract_id);

    let admin = Address::generate(&env);
    client.initialize(&admin);

    let from = Address::generate(&env);
    let to = Address::generate(&env);
    let first_amount: i128 = 300;
    let second_amount: i128 = 700;

    env.mock_all_auths();
    let token_id = create_token(&env, &admin, &from, first_amount + second_amount);
    client.send_tip(&token_id, &from, &to, &first_amount);
    client.send_tip(&token_id, &from, &to, &second_amount);

    assert_eq!(client.get_tip_total(&to), first_amount + second_amount);
    assert_eq!(client.get_tip_count(&to), 2);
}

#[test]
#[should_panic]
fn test_send_tip_unauthorized() {
    let env = new_env();
    let contract_id = env.register(Host, ());
    let client = Client::new(&env, &contract_id);

    let admin = Address::generate(&env);
    client.initialize(&admin);

    let from = Address::generate(&env);
    let to = Address::generate(&env);
    let amount: i128 = 100;

    // Mint tokens to `from` but do NOT call env.mock_all_auths(),
    // so from.require_auth() inside send_tip will fail.
    env.mock_all_auths();
    let token_id = create_token(&env, &admin, &from, amount);
    // Clear mocked auths so the send_tip call is not authorized.
    env.set_auths(&[]);

    client.send_tip(&token_id, &from, &to, &amount);
}

// ── Escrow tests ────────────────────────────────────────────────────────

fn advance_ledger(env: &Env, to_sequence: u32) {
    env.ledger().with_mut(|info| {
        info.sequence_number = to_sequence;
    });
}

#[test]
fn test_create_escrow_locks_funds_and_returns_id() {
    let env = new_env();
    let contract_id = env.register(Host, ());
    let client = Client::new(&env, &contract_id);

    let admin = Address::generate(&env);
    client.initialize(&admin);

    let from = Address::generate(&env);
    let to = Address::generate(&env);
    let amount: i128 = 1_000;

    env.mock_all_auths();
    let token_id = create_token(&env, &admin, &from, amount);
    let token = token::Client::new(&env, &token_id);
    let release_ledger = env.ledger().sequence() + 100;

    let id = client.create_escrow(&token_id, &from, &to, &amount, &release_ledger);
    assert_eq!(id, 0);
    assert_eq!(client.get_escrow_count(), 1);

    // Funds moved into the contract, not the recipient.
    assert_eq!(token.balance(&from), 0);
    assert_eq!(token.balance(&contract_id), amount);
    assert_eq!(token.balance(&to), 0);

    let escrow = client.get_escrow(&id);
    assert_eq!(escrow.amount, amount);
    assert_eq!(escrow.status, EscrowStatus::Pending);
}

#[test]
#[should_panic(expected = "release_ledger must be in the future")]
fn test_create_escrow_rejects_past_release_ledger() {
    let env = new_env();
    let contract_id = env.register(Host, ());
    let client = Client::new(&env, &contract_id);
    let admin = Address::generate(&env);
    client.initialize(&admin);

    let from = Address::generate(&env);
    let to = Address::generate(&env);
    env.mock_all_auths();
    let token_id = create_token(&env, &admin, &from, 100);

    // release_ledger == current sequence is not "in the future".
    let now = env.ledger().sequence();
    client.create_escrow(&token_id, &from, &to, &100, &now);
}

#[test]
#[should_panic(expected = "amount must be positive")]
fn test_create_escrow_rejects_non_positive_amount() {
    let env = new_env();
    let contract_id = env.register(Host, ());
    let client = Client::new(&env, &contract_id);
    let admin = Address::generate(&env);
    client.initialize(&admin);

    let from = Address::generate(&env);
    let to = Address::generate(&env);
    env.mock_all_auths();
    let token_id = create_token(&env, &admin, &from, 100);
    let release = env.ledger().sequence() + 50;
    client.create_escrow(&token_id, &from, &to, &0i128, &release);
}

#[test]
fn test_claim_escrow_transfers_to_recipient_after_release() {
    let env = new_env();
    let contract_id = env.register(Host, ());
    let client = Client::new(&env, &contract_id);
    let admin = Address::generate(&env);
    client.initialize(&admin);

    let from = Address::generate(&env);
    let to = Address::generate(&env);
    let amount: i128 = 500;
    env.mock_all_auths();
    let token_id = create_token(&env, &admin, &from, amount);
    let token = token::Client::new(&env, &token_id);

    let release_ledger = env.ledger().sequence() + 10;
    let id = client.create_escrow(&token_id, &from, &to, &amount, &release_ledger);

    // Claim is valid at the inclusive release boundary.
    advance_ledger(&env, release_ledger);
    client.claim_escrow(&id);

    assert_eq!(token.balance(&to), amount);
    assert_eq!(token.balance(&contract_id), 0);
    assert_eq!(client.get_escrow(&id).status, EscrowStatus::Released);
}

#[test]
#[should_panic(expected = "escrow is not pending")]
fn test_claim_escrow_rejected_after_release() {
    let env = new_env();
    let contract_id = env.register(Host, ());
    let client = Client::new(&env, &contract_id);
    let admin = Address::generate(&env);
    client.initialize(&admin);

    let from = Address::generate(&env);
    let to = Address::generate(&env);
    env.mock_all_auths();
    let token_id = create_token(&env, &admin, &from, 500);
    let release = env.ledger().sequence() + 10;
    let id = client.create_escrow(&token_id, &from, &to, &500, &release);

    advance_ledger(&env, release + 1);
    client.claim_escrow(&id);
    // Second claim must be rejected — state was persisted before transfer.
    client.claim_escrow(&id);
}

#[test]
fn test_claim_escrow_rejected_before_release_ledger() {
    let env = new_env();
    let contract_id = env.register(Host, ());
    let client = Client::new(&env, &contract_id);
    let admin = Address::generate(&env);
    client.initialize(&admin);

    let from = Address::generate(&env);
    let to = Address::generate(&env);
    env.mock_all_auths();
    let token_id = create_token(&env, &admin, &from, 100);
    let release = env.ledger().sequence() + 50;
    let id = client.create_escrow(&token_id, &from, &to, &100, &release);
    advance_ledger(&env, release - 1);
    let result = client.try_claim_escrow(&id);
    assert_eq!(
        result.unwrap_err().unwrap(),
        ContractError::EscrowClaimTooEarly
    );
}

#[test]
fn test_cancel_escrow_returns_funds_to_creator() {
    let env = new_env();
    let contract_id = env.register(Host, ());
    let client = Client::new(&env, &contract_id);
    let admin = Address::generate(&env);
    client.initialize(&admin);

    let from = Address::generate(&env);
    let to = Address::generate(&env);
    let amount: i128 = 750;
    env.mock_all_auths();
    let token_id = create_token(&env, &admin, &from, amount);
    let token = token::Client::new(&env, &token_id);

    let release = env.ledger().sequence() + 100;
    let id = client.create_escrow(&token_id, &from, &to, &amount, &release);

    // Still before release_ledger.
    client.cancel_escrow(&id);

    assert_eq!(token.balance(&from), amount);
    assert_eq!(token.balance(&contract_id), 0);
    assert_eq!(token.balance(&to), 0);
    assert_eq!(client.get_escrow(&id).status, EscrowStatus::Cancelled);
}

#[test]
#[should_panic(expected = "escrow is not pending")]
fn test_cancel_escrow_rejected_after_cancellation() {
    let env = new_env();
    let contract_id = env.register(Host, ());
    let client = Client::new(&env, &contract_id);
    let admin = Address::generate(&env);
    client.initialize(&admin);

    let from = Address::generate(&env);
    let to = Address::generate(&env);
    env.mock_all_auths();
    let token_id = create_token(&env, &admin, &from, 750);
    let release = env.ledger().sequence() + 100;
    let id = client.create_escrow(&token_id, &from, &to, &750, &release);

    client.cancel_escrow(&id);
    // Second cancel must be rejected — state was persisted before transfer.
    client.cancel_escrow(&id);
}

#[test]
fn test_cancel_escrow_rejected_after_release_ledger() {
    let env = new_env();
    let contract_id = env.register(Host, ());
    let client = Client::new(&env, &contract_id);
    let admin = Address::generate(&env);
    client.initialize(&admin);

    let from = Address::generate(&env);
    let to = Address::generate(&env);
    env.mock_all_auths();
    let token_id = create_token(&env, &admin, &from, 100);
    let release = env.ledger().sequence() + 5;
    let id = client.create_escrow(&token_id, &from, &to, &100, &release);
    advance_ledger(&env, release);
    let at_release = client.try_cancel_escrow(&id);
    assert_eq!(
        at_release.unwrap_err().unwrap(),
        ContractError::EscrowCancelTooLate
    );

    advance_ledger(&env, release + 1);
    let after_release = client.try_cancel_escrow(&id);
    assert_eq!(
        after_release.unwrap_err().unwrap(),
        ContractError::EscrowCancelTooLate
    );
}

#[test]
#[should_panic(expected = "escrow is not pending")]
fn test_double_claim_rejected() {
    let env = new_env();
    let contract_id = env.register(Host, ());
    let client = Client::new(&env, &contract_id);
    let admin = Address::generate(&env);
    client.initialize(&admin);

    let from = Address::generate(&env);
    let to = Address::generate(&env);
    env.mock_all_auths();
    let token_id = create_token(&env, &admin, &from, 100);
    let release = env.ledger().sequence() + 5;
    let id = client.create_escrow(&token_id, &from, &to, &100, &release);
    advance_ledger(&env, release + 1);
    client.claim_escrow(&id);
    client.claim_escrow(&id);
}

#[test]
fn test_escrow_sender_and_recipient_indexes() {
    let env = new_env();
    let contract_id = env.register(Host, ());
    let client = Client::new(&env, &contract_id);
    let admin = Address::generate(&env);
    client.initialize(&admin);

    let from = Address::generate(&env);
    let to = Address::generate(&env);
    let other = Address::generate(&env);
    env.mock_all_auths();
    let token_id = create_token(&env, &admin, &from, 2_000);
    token::StellarAssetClient::new(&env, &token_id).mint(&other, &500);

    let release = env.ledger().sequence() + 50;
    let id0 = client.create_escrow(&token_id, &from, &to, &500, &release);
    let id1 = client.create_escrow(&token_id, &from, &other, &300, &(release + 10));
    let id2 = client.create_escrow(&token_id, &other, &to, &200, &(release + 20));

    assert_eq!(client.get_escrow_sender_count(&from), 2);
    assert_eq!(client.get_escrow_recipient_count(&to), 2);
    assert_eq!(client.get_escrow_sender_count(&other), 1);
    assert_eq!(client.get_escrow_recipient_count(&other), 1);

    let from_ids = client.list_escrow_ids_for_sender(&from, &0, &10);
    assert_eq!(from_ids.len(), 2);
    assert_eq!(from_ids.get(0).unwrap(), id0);
    assert_eq!(from_ids.get(1).unwrap(), id1);

    let to_ids = client.list_escrow_ids_for_recipient(&to, &0, &10);
    assert_eq!(to_ids.len(), 2);
    assert_eq!(to_ids.get(0).unwrap(), id0);
    assert_eq!(to_ids.get(1).unwrap(), id2);

    let page = client.list_escrow_ids_for_sender(&from, &1, &1);
    assert_eq!(page.len(), 1);
    assert_eq!(page.get(0).unwrap(), id1);
}

#[test]
fn test_escrow_indexes_keep_released_and_cancelled_records() {
    let env = new_env();
    let contract_id = env.register(Host, ());
    let client = Client::new(&env, &contract_id);
    let admin = Address::generate(&env);
    client.initialize(&admin);

    let from = Address::generate(&env);
    let to = Address::generate(&env);
    env.mock_all_auths();
    let token_id = create_token(&env, &admin, &from, 1_000);

    let release = env.ledger().sequence() + 10;
    let claim_id = client.create_escrow(&token_id, &from, &to, &400, &release);
    let cancel_id = client.create_escrow(&token_id, &from, &to, &300, &(release + 100));

    advance_ledger(&env, release + 1);
    client.claim_escrow(&claim_id);
    client.cancel_escrow(&cancel_id);

    assert_eq!(client.get_escrow_sender_count(&from), 2);
    assert_eq!(client.get_escrow_recipient_count(&to), 2);

    let sender_ids = client.list_escrow_ids_for_sender(&from, &0, &10);
    assert_eq!(sender_ids.get(0).unwrap(), claim_id);
    assert_eq!(sender_ids.get(1).unwrap(), cancel_id);
    assert_eq!(client.get_escrow(&claim_id).status, EscrowStatus::Released);
    assert_eq!(
        client.get_escrow(&cancel_id).status,
        EscrowStatus::Cancelled
    );
}

#[test]
fn test_migrate_backfills_escrow_indexes() {
    let env = new_env();
    let contract_id = env.register(Host, ());
    let client = Client::new(&env, &contract_id);
    let admin = Address::generate(&env);
    client.initialize(&admin);
    env.mock_all_auths();

    let from = Address::generate(&env);
    let to = Address::generate(&env);
    let token_id = create_token(&env, &admin, &from, 500);
    let release = env.ledger().sequence() + 25;
    let id = client.create_escrow(&token_id, &from, &to, &500, &release);

    // Simulate a v2 instance without per-account escrow indexes.
    env.as_contract(&contract_id, || {
        env.storage()
            .persistent()
            .set(&(Symbol::new(&env, "SchemaVersion"),), &2u32);
        env.storage()
            .persistent()
            .remove(&(Symbol::new(&env, "EscrowSenderCount"), from.clone()));
        env.storage()
            .persistent()
            .remove(&(Symbol::new(&env, "EscrowRecipientCount"), to.clone()));
    });
    assert_eq!(client.get_escrow_sender_count(&from), 0);

    assert_eq!(client.migrate(&admin), SCHEMA_VERSION);
    assert_eq!(client.get_escrow_sender_count(&from), 1);
    assert_eq!(client.get_escrow_recipient_count(&to), 1);
    assert_eq!(
        client
            .list_escrow_ids_for_sender(&from, &0, &10)
            .get(0)
            .unwrap(),
        id
    );
}

// ── Streaming payment tests ─────────────────────────────────────────────

const RATE: i128 = 100;
const DEPOSIT: i128 = 100_000; // 1_000 ledgers of runway at RATE.

fn advance_by(env: &Env, ledgers: u32) {
    let target = env.ledger().sequence() + ledgers;
    advance_ledger(env, target);
}

/// Deploy the contract, mint `funding` to a fresh payer and return
/// everything a stream test needs.
fn stream_fixture(
    env: &Env,
    funding: i128,
) -> (
    Address,
    Client<'_>,
    Address,
    Address,
    Address,
) {
    let contract_id = env.register(Host, ());
    let client = Client::new(env, &contract_id);
    let admin = Address::generate(env);
    client.initialize(&admin);

    let payer = Address::generate(env);
    let recipient = Address::generate(env);
    env.mock_all_auths();
    let token_id = create_token(env, &admin, &payer, funding);

    (contract_id, client, token_id, payer, recipient)
}

/// Open a stream with a single recipient holding the entire weight — which
/// most of these tests need.
fn open_single_stream(
    env: &Env,
    client: &Client,
    token_id: &Address,
    payer: &Address,
    recipient: &Address,
    rate_per_ledger: i128,
    deposit: i128,
) -> u32 {
    client.open_stream(
        token_id,
        payer,
        &soroban_sdk::Vec::from_array(env, [recipient.clone()]),
        &soroban_sdk::Vec::from_array(env, [1u32]),
        &rate_per_ledger,
        &deposit,
    )
}

/// The sole recipient's claimed amount on a single-recipient stream.
fn claimed_of(stream: &Stream) -> i128 {
    stream.recipients.get(0).unwrap().claimed
}

#[test]
fn test_open_stream() {
    let env = new_env();
    let (contract_id, client, token_id, payer, recipient) = stream_fixture(&env, DEPOSIT);
    let token = token::Client::new(&env, &token_id);

    let id = open_single_stream(&env, &client, &token_id, &payer, &recipient, RATE, DEPOSIT);

    assert_eq!(id, 0);
    assert_eq!(client.get_stream_count(), 1);

    // The deposit is locked in the contract, not forwarded to the recipient.
    assert_eq!(token.balance(&payer), 0);
    assert_eq!(token.balance(&contract_id), DEPOSIT);
    assert_eq!(token.balance(&recipient), 0);

    let stream = client.get_stream(&id);
    assert_eq!(stream.payer, payer);
    assert_eq!(stream.recipients.len(), 1);
    assert_eq!(stream.recipients.get(0).unwrap().recipient, recipient);
    assert_eq!(stream.recipients.get(0).unwrap().weight, 1);
    assert_eq!(stream.rate_per_ledger, RATE);
    assert_eq!(stream.deposited, DEPOSIT);
    assert_eq!(claimed_of(&stream), 0);
    assert_eq!(stream.start_ledger, env.ledger().sequence());
    assert!(!stream.paused);
    assert!(!stream.closed);
}

#[test]
fn test_claim_stream_basic() {
    let env = new_env();
    let (contract_id, client, token_id, payer, recipient) = stream_fixture(&env, DEPOSIT);
    let token = token::Client::new(&env, &token_id);

    let id = open_single_stream(&env, &client, &token_id, &payer, &recipient, RATE, DEPOSIT);
    advance_by(&env, 10);

    let claimed = client.claim_stream(&id, &recipient);

    assert_eq!(claimed, RATE * 10);
    assert_eq!(token.balance(&recipient), RATE * 10);
    assert_eq!(token.balance(&contract_id), DEPOSIT - RATE * 10);
    assert_eq!(claimed_of(&client.get_stream(&id)), RATE * 10);
}

#[test]
fn test_claim_stream_multiple_times() {
    let env = new_env();
    let (_, client, token_id, payer, recipient) = stream_fixture(&env, DEPOSIT);
    let token = token::Client::new(&env, &token_id);

    let id = open_single_stream(&env, &client, &token_id, &payer, &recipient, RATE, DEPOSIT);

    advance_by(&env, 5);
    assert_eq!(client.claim_stream(&id, &recipient), RATE * 5);
    advance_by(&env, 7);
    assert_eq!(client.claim_stream(&id, &recipient), RATE * 7);

    // A claim with no ledgers in between accrues nothing and is a no-op.
    assert_eq!(client.claim_stream(&id, &recipient), 0);

    assert_eq!(token.balance(&recipient), RATE * 12);
    assert_eq!(claimed_of(&client.get_stream(&id)), RATE * 12);
}

#[test]
fn test_claim_stream_exceeds_deposit() {
    let env = new_env();
    let (contract_id, client, token_id, payer, recipient) = stream_fixture(&env, DEPOSIT);
    let token = token::Client::new(&env, &token_id);

    let id = open_single_stream(&env, &client, &token_id, &payer, &recipient, RATE, DEPOSIT);

    // Run far past the funded window: accrual stops at the deposit.
    advance_by(&env, 10_000);

    assert_eq!(client.get_claimable(&id, &recipient), DEPOSIT);
    assert_eq!(client.claim_stream(&id, &recipient), DEPOSIT);
    assert_eq!(client.claim_stream(&id, &recipient), 0);
    assert_eq!(token.balance(&recipient), DEPOSIT);
    assert_eq!(token.balance(&contract_id), 0);

    let stream = client.get_stream(&id);
    assert_eq!(claimed_of(&stream), stream.deposited);
}

#[test]
fn test_top_up_stream() {
    let env = new_env();
    let (contract_id, client, token_id, payer, recipient) = stream_fixture(&env, DEPOSIT * 2);
    let token = token::Client::new(&env, &token_id);

    let id = open_single_stream(&env, &client, &token_id, &payer, &recipient, RATE, DEPOSIT);
    advance_by(&env, 1_000); // Drain the original runway exactly.
    assert_eq!(client.get_claimable(&id, &recipient), DEPOSIT);

    client.top_up_stream(&id, &payer, &DEPOSIT);

    assert_eq!(client.get_stream(&id).deposited, DEPOSIT * 2);
    assert_eq!(token.balance(&contract_id), DEPOSIT * 2);

    // The top-up extends the runway rather than paying out immediately.
    assert_eq!(client.get_claimable(&id, &recipient), DEPOSIT);
    advance_by(&env, 10);
    assert_eq!(client.get_claimable(&id, &recipient), DEPOSIT + RATE * 10);
}

/// claim_stream and top_up_stream both land in the same ledger
/// (no advance_by between them). Accounting must stay exact: the top-up
/// must not retroactively change what was already claimable, and after a
/// second claim later on, claimed + whatever remains locked in the
/// contract must reconcile exactly against the total ever deposited.
#[test]
fn test_claim_and_top_up_same_ledger() {
    let env = new_env();
    let (contract_id, client, token_id, payer, recipient1) = stream_fixture(&env, DEPOSIT * 2);
    let recipient2 = Address::generate(&env);
    let token = token::Client::new(&env, &token_id);

    let id = client.open_stream(
        &token_id,
        &payer,
        &soroban_sdk::Vec::from_array(&env, [recipient1.clone(), recipient2.clone()]),
        &soroban_sdk::Vec::from_array(&env, [1u32, 1u32]),
        &RATE,
        &DEPOSIT,
    );

    // Accrue some balance, then partially claim it.
    advance_by(&env, 10);
    let first_claim1 = client.claim_stream(&id, &recipient1);
    let first_claim2 = client.claim_stream(&id, &recipient2);
    assert_eq!(first_claim1, (RATE * 10) / 2);
    assert_eq!(first_claim2, (RATE * 10) / 2);

    // top_up_stream happens in the very same ledger as the claim above —
    // no advance_by call between them.
    client.top_up_stream(&id, &payer, &DEPOSIT);

    let after_topup = client.get_stream(&id);
    assert_eq!(after_topup.deposited, DEPOSIT * 2);
    assert_eq!(total_claimed(&after_topup.recipients).unwrap(), RATE * 10);
    // The top-up must not change what's claimable right now — the
    // extended runway only shows up as ledgers advance.
    assert_eq!(client.get_claimable(&id, &recipient1), 0);
    assert_eq!(client.get_claimable(&id, &recipient2), 0);

    advance_by(&env, 5);
    let second_claim1 = client.claim_stream(&id, &recipient1);
    let second_claim2 = client.claim_stream(&id, &recipient2);
    assert_eq!(second_claim1, (RATE * 5) / 2);
    assert_eq!(second_claim2, (RATE * 5) / 2);

    let final_stream = client.get_stream(&id);
    assert_eq!(total_claimed(&final_stream.recipients).unwrap(), RATE * 15);
    assert_eq!(
        token.balance(&recipient1) + token.balance(&recipient2),
        total_claimed(&final_stream.recipients).unwrap()
    );

    // Reconciliation: claimed + whatever remains locked in the contract
    // for this stream equals the total ever deposited, exactly.
    let remaining_in_contract = token.balance(&contract_id);
    assert_eq!(
        total_claimed(&final_stream.recipients).unwrap() + remaining_in_contract,
        after_topup.deposited
    );
}

#[test]
fn test_close_stream_with_refund() {
    let env = new_env();
    let (contract_id, client, token_id, payer, recipient) = stream_fixture(&env, DEPOSIT);
    let token = token::Client::new(&env, &token_id);

    let id = open_single_stream(&env, &client, &token_id, &payer, &recipient, RATE, DEPOSIT);
    advance_by(&env, 20);
    client.close_stream(&id, &payer);

    let streamed = RATE * 20;
    assert_eq!(token.balance(&recipient), streamed);
    assert_eq!(token.balance(&payer), DEPOSIT - streamed);
    assert_eq!(token.balance(&contract_id), 0);

    let stream = client.get_stream(&id);
    assert!(stream.closed);
    assert_eq!(claimed_of(&stream), streamed);
    assert_eq!(client.get_claimable(&id, &recipient), 0);
}

/// close_stream must emit an event carrying the stream id and the
/// refunded amount, not just return them, so off-chain indexers can track
/// closures without polling.
#[test]
fn test_close_stream_emits_event_with_refund() {

    let env = new_env();
    let (contract_id, client, token_id, payer, recipient) = stream_fixture(&env, DEPOSIT);

    let id = open_single_stream(&env, &client, &token_id, &payer, &recipient, RATE, DEPOSIT);
    advance_by(&env, 20);
    client.close_stream(&id, &payer);

    let streamed = RATE * 20;
    let refund = DEPOSIT - streamed;

    let contract_events = env.events().all().filter_by_contract(&contract_id);
    assert!(
        !contract_events.events().is_empty(),
        "expected at least one contract event"
    );
    assert_eq!(
        contract_events,
        soroban_sdk::Vec::from_array(
            &env,
            [
            (
                contract_id,
                (Symbol::new(&env, "stream_close"), id).into_val(&env),
                (EVENT_SCHEMA_VERSION, streamed, refund).into_val(&env),
            ),
            ]
        )
    );
}

#[test]
fn test_close_stream_after_claims() {
    let env = new_env();
    let (contract_id, client, token_id, payer, recipient) = stream_fixture(&env, DEPOSIT);
    let token = token::Client::new(&env, &token_id);

    let id = open_single_stream(&env, &client, &token_id, &payer, &recipient, RATE, DEPOSIT);
    advance_by(&env, 30);
    client.claim_stream(&id, &recipient);
    advance_by(&env, 20);
    client.close_stream(&id, &payer);

    // Claimed portions are not paid twice: the recipient ends up with the
    // full 50 ledgers of accrual and the payer with the rest.
    let streamed = RATE * 50;
    assert_eq!(token.balance(&recipient), streamed);
    assert_eq!(token.balance(&payer), DEPOSIT - streamed);
    assert_eq!(token.balance(&contract_id), 0);
    assert_eq!(claimed_of(&client.get_stream(&id)), streamed);
}

#[test]
fn test_get_claimable() {
    let env = new_env();
    let (_, client, token_id, payer, recipient) = stream_fixture(&env, DEPOSIT);

    let id = open_single_stream(&env, &client, &token_id, &payer, &recipient, RATE, DEPOSIT);
    assert_eq!(client.get_claimable(&id, &recipient), 0);

    advance_by(&env, 3);
    assert_eq!(client.get_claimable(&id, &recipient), RATE * 3);

    client.claim_stream(&id, &recipient);
    assert_eq!(client.get_claimable(&id, &recipient), 0);
}

#[test]
#[should_panic(expected = "stream not found")]
fn test_claim_nonexistent_stream() {
    let env = new_env();
    let (_, client, _, _, recipient) = stream_fixture(&env, DEPOSIT);
    client.claim_stream(&42, &recipient);
}

#[test]
#[should_panic(expected = "unauthorized")]
fn test_unauthorized_claim() {
    let env = new_env();
    let (_, client, token_id, payer, recipient) = stream_fixture(&env, DEPOSIT);

    let id = open_single_stream(&env, &client, &token_id, &payer, &recipient, RATE, DEPOSIT);
    advance_by(&env, 10);

    let stranger = Address::generate(&env);
    client.claim_stream(&id, &stranger);
}

#[test]
#[should_panic(expected = "unauthorized")]
fn test_unauthorized_close() {
    let env = new_env();
    let (_, client, token_id, payer, recipient) = stream_fixture(&env, DEPOSIT);

    let id = open_single_stream(&env, &client, &token_id, &payer, &recipient, RATE, DEPOSIT);

    let stranger = Address::generate(&env);
    client.close_stream(&id, &stranger);
}

#[test]
#[should_panic(expected = "rate_per_ledger must be positive")]
fn test_invalid_rate() {
    let env = new_env();
    let (_, client, token_id, payer, recipient) = stream_fixture(&env, DEPOSIT);
    open_single_stream(&env, &client, &token_id, &payer, &recipient, 0i128, DEPOSIT);
}

#[test]
#[should_panic(expected = "deposit must be positive")]
fn test_invalid_deposit() {
    let env = new_env();
    let (_, client, token_id, payer, recipient) = stream_fixture(&env, DEPOSIT);
    open_single_stream(&env, &client, &token_id, &payer, &recipient, RATE, 0i128);
}

// ── Dust-stream validation ───────────────────────────────────────

#[test]
#[should_panic(expected = "deposit below minimum")]
fn test_open_stream_rejects_dust_deposit() {
    let env = new_env();
    let (_, client, token_id, payer, recipient) = stream_fixture(&env, DEPOSIT);
    let dust = MIN_STREAM_DEPOSIT - 1;
    open_single_stream(&env, &client, &token_id, &payer, &recipient, 1i128, dust);
}

#[test]
#[should_panic(expected = "stream duration below minimum")]
fn test_open_stream_rejects_short_duration() {
    let env = new_env();
    let (_, client, token_id, payer, recipient) = stream_fixture(&env, DEPOSIT);
    // Deposit clears the minimum, but this rate drains it in 10 ledgers.
    open_single_stream(
        &env, &client, &token_id, &payer, &recipient, 1_000i128, 10_000i128,
    );
}

#[test]
#[should_panic(expected = "stream duration below minimum")]
fn test_open_stream_rejects_zero_ledger_duration() {
    let env = new_env();
    let (_, client, token_id, payer, recipient) = stream_fixture(&env, DEPOSIT);
    // rate > deposit funds zero whole ledgers.
    open_single_stream(
        &env, &client, &token_id, &payer, &recipient, 20_000i128, 10_000i128,
    );
}

#[test]
fn test_open_stream_accepts_exact_minimums() {
    let env = new_env();
    let (_, client, token_id, payer, recipient) = stream_fixture(&env, MIN_STREAM_DEPOSIT);
    // 10_000 / 166 == 60 ledgers, exactly MIN_STREAM_DURATION_LEDGERS.
    let id = open_single_stream(
        &env,
        &client,
        &token_id,
        &payer,
        &recipient,
        166i128,
        MIN_STREAM_DEPOSIT,
    );
    assert_eq!(client.get_stream(&id).deposited, MIN_STREAM_DEPOSIT);
}

// ── Multi-recipient streams ──────────────────────────────────────

#[test]
fn test_open_stream_multiple_recipients_records_shares() {
    let env = new_env();
    let (_, client, token_id, payer, recipient) = stream_fixture(&env, DEPOSIT);
    let second = Address::generate(&env);

    let id = client.open_stream(
        &token_id,
        &payer,
        &soroban_sdk::Vec::from_array(&env, [recipient.clone(), second.clone()]),
        &soroban_sdk::Vec::from_array(&env, [1u32, 3u32]),
        &RATE,
        &DEPOSIT,
    );

    let stream = client.get_stream(&id);
    assert_eq!(stream.recipients.len(), 2);
    assert_eq!(stream.recipients.get(0).unwrap().recipient, recipient);
    assert_eq!(stream.recipients.get(0).unwrap().weight, 1);
    assert_eq!(stream.recipients.get(1).unwrap().recipient, second);
    assert_eq!(stream.recipients.get(1).unwrap().weight, 3);
}

#[test]
fn test_claim_stream_multiple_recipients_pays_proportionally() {
    let env = new_env();
    let (contract_id, client, token_id, payer, recipient) = stream_fixture(&env, DEPOSIT);
    let token = token::Client::new(&env, &token_id);
    let second = Address::generate(&env);

    // Weights 1:3 — `recipient` gets a quarter of accrual, `second` gets
    // three quarters.
    let id = client.open_stream(
        &token_id,
        &payer,
        &soroban_sdk::Vec::from_array(&env, [recipient.clone(), second.clone()]),
        &soroban_sdk::Vec::from_array(&env, [1u32, 3u32]),
        &RATE,
        &DEPOSIT,
    );
    advance_by(&env, 40);

    assert_eq!(client.get_claimable(&id, &recipient), RATE * 40 / 4);
    assert_eq!(client.get_claimable(&id, &second), RATE * 40 * 3 / 4);

    assert_eq!(client.claim_stream(&id, &recipient), RATE * 40 / 4);
    assert_eq!(client.claim_stream(&id, &second), RATE * 40 * 3 / 4);
    assert_eq!(token.balance(&recipient), RATE * 40 / 4);
    assert_eq!(token.balance(&second), RATE * 40 * 3 / 4);
    assert_eq!(token.balance(&contract_id), DEPOSIT - RATE * 40);

    // A second claim with no new accrual pays nothing, for either party.
    assert_eq!(client.claim_stream(&id, &recipient), 0);
    assert_eq!(client.claim_stream(&id, &second), 0);
}

#[test]
fn test_close_stream_multiple_recipients_settles_each() {
    let env = new_env();
    let (contract_id, client, token_id, payer, recipient) = stream_fixture(&env, DEPOSIT);
    let token = token::Client::new(&env, &token_id);
    let second = Address::generate(&env);

    let id = client.open_stream(
        &token_id,
        &payer,
        &soroban_sdk::Vec::from_array(&env, [recipient.clone(), second.clone()]),
        &soroban_sdk::Vec::from_array(&env, [1u32, 1u32]),
        &RATE,
        &DEPOSIT,
    );
    advance_by(&env, 30);
    // recipient claims their half early; second never claims.
    client.claim_stream(&id, &recipient);
    advance_by(&env, 20);
    client.close_stream(&id, &payer);

    let streamed = RATE * 50;
    assert_eq!(token.balance(&recipient), streamed / 2);
    assert_eq!(token.balance(&second), streamed / 2);
    assert_eq!(token.balance(&payer), DEPOSIT - streamed);
    assert_eq!(token.balance(&contract_id), 0);
}

#[test]
#[should_panic(expected = "unauthorized")]
fn test_claim_rejects_address_not_on_recipient_list() {
    let env = new_env();
    let (_, client, token_id, payer, recipient) = stream_fixture(&env, DEPOSIT);
    let second = Address::generate(&env);

    let id = client.open_stream(
        &token_id,
        &payer,
        &soroban_sdk::Vec::from_array(&env, [recipient.clone(), second]),
        &soroban_sdk::Vec::from_array(&env, [1u32, 1u32]),
        &RATE,
        &DEPOSIT,
    );
    advance_by(&env, 10);

    let stranger = Address::generate(&env);
    client.claim_stream(&id, &stranger);
}

#[test]
#[should_panic(expected = "recipients and weights must have equal length")]
fn test_open_stream_rejects_mismatched_recipients_and_weights() {
    let env = new_env();
    let (_, client, token_id, payer, recipient) = stream_fixture(&env, DEPOSIT);

    client.open_stream(
        &token_id,
        &payer,
        &soroban_sdk::Vec::from_array(&env, [recipient]),
        &soroban_sdk::Vec::from_array(&env, [1u32, 1u32]),
        &RATE,
        &DEPOSIT,
    );
}

#[test]
#[should_panic(expected = "at least one recipient is required")]
fn test_open_stream_rejects_empty_recipients() {
    let env = new_env();
    let (_, client, token_id, payer, _recipient) = stream_fixture(&env, DEPOSIT);

    client.open_stream(
        &token_id,
        &payer,
        &soroban_sdk::Vec::new(&env),
        &soroban_sdk::Vec::new(&env),
        &RATE,
        &DEPOSIT,
    );
}

#[test]
#[should_panic(expected = "weight must be positive")]
fn test_open_stream_rejects_zero_weight() {
    let env = new_env();
    let (_, client, token_id, payer, recipient) = stream_fixture(&env, DEPOSIT);
    let second = Address::generate(&env);

    client.open_stream(
        &token_id,
        &payer,
        &soroban_sdk::Vec::from_array(&env, [recipient, second]),
        &soroban_sdk::Vec::from_array(&env, [1u32, 0u32]),
        &RATE,
        &DEPOSIT,
    );
}

#[test]
#[should_panic(expected = "recipients must not contain duplicate addresses")]
fn test_open_stream_rejects_duplicate_recipient() {
    let env = new_env();
    let (_, client, token_id, payer, recipient) = stream_fixture(&env, DEPOSIT);

    client.open_stream(
        &token_id,
        &payer,
        &soroban_sdk::Vec::from_array(&env, [recipient.clone(), recipient]),
        &soroban_sdk::Vec::from_array(&env, [1u32, 1u32]),
        &RATE,
        &DEPOSIT,
    );
}

// ── Pausable streams ─────────────────────────────────────────────

#[test]
fn test_pause_stream_halts_accrual() {
    let env = new_env();
    let (_, client, token_id, payer, recipient) = stream_fixture(&env, DEPOSIT);

    let id = open_single_stream(&env, &client, &token_id, &payer, &recipient, RATE, DEPOSIT);
    advance_by(&env, 10);
    client.pause_stream(&id, &payer);

    let at_pause = client.get_claimable(&id, &recipient);
    assert_eq!(at_pause, RATE * 10);

    // 500 ledgers of paused time must not accrue anything.
    advance_by(&env, 500);
    assert_eq!(client.get_claimable(&id, &recipient), at_pause);

    let stream = client.get_stream(&id);
    assert!(stream.paused);
    assert_eq!(stream.paused_at_ledger, stream.start_ledger + 10);
}

#[test]
fn test_resume_stream_continues_accrual() {
    let env = new_env();
    let (_, client, token_id, payer, recipient) = stream_fixture(&env, DEPOSIT);

    let id = open_single_stream(&env, &client, &token_id, &payer, &recipient, RATE, DEPOSIT);
    advance_by(&env, 10);
    client.pause_stream(&id, &payer);
    advance_by(&env, 500);
    client.resume_stream(&id, &payer);

    // Resuming does not back-pay the pause…
    assert_eq!(client.get_claimable(&id, &recipient), RATE * 10);
    // …and accrual picks up from where it stopped.
    advance_by(&env, 10);
    assert_eq!(client.get_claimable(&id, &recipient), RATE * 20);

    let stream = client.get_stream(&id);
    assert!(!stream.paused);
    assert_eq!(stream.paused_ledgers, 500);
}

#[test]
fn test_paused_time_excluded_from_claim() {
    let env = new_env();
    let (_, client, token_id, payer, recipient) = stream_fixture(&env, DEPOSIT);
    let token = token::Client::new(&env, &token_id);

    let id = open_single_stream(&env, &client, &token_id, &payer, &recipient, RATE, DEPOSIT);
    advance_by(&env, 40);
    client.pause_stream(&id, &payer);
    advance_by(&env, 200);
    client.resume_stream(&id, &payer);
    advance_by(&env, 60);

    // 300 ledgers of wall time, 100 of them running.
    assert_eq!(client.claim_stream(&id, &recipient), RATE * 100);
    assert_eq!(token.balance(&recipient), RATE * 100);
}

#[test]
fn test_claim_while_paused_pays_only_pre_pause_accrual() {
    let env = new_env();
    let (_, client, token_id, payer, recipient) = stream_fixture(&env, DEPOSIT);

    let id = open_single_stream(&env, &client, &token_id, &payer, &recipient, RATE, DEPOSIT);
    advance_by(&env, 25);
    client.pause_stream(&id, &payer);
    advance_by(&env, 100);

    assert_eq!(client.claim_stream(&id, &recipient), RATE * 25);
    assert_eq!(client.claim_stream(&id, &recipient), 0);
}

#[test]
fn test_close_while_paused_refunds_unstreamed() {
    let env = new_env();
    let (contract_id, client, token_id, payer, recipient) = stream_fixture(&env, DEPOSIT);
    let token = token::Client::new(&env, &token_id);

    let id = open_single_stream(&env, &client, &token_id, &payer, &recipient, RATE, DEPOSIT);
    advance_by(&env, 15);
    client.pause_stream(&id, &payer);
    advance_by(&env, 400);
    client.close_stream(&id, &payer);

    let streamed = RATE * 15;
    assert_eq!(token.balance(&recipient), streamed);
    assert_eq!(token.balance(&payer), DEPOSIT - streamed);
    assert_eq!(token.balance(&contract_id), 0);

    let stream = client.get_stream(&id);
    assert_eq!(stream.paused_ledgers, 400);
    assert!(!stream.paused);
}

#[test]
fn test_multiple_pause_intervals() {
    let env = new_env();
    let (contract_id, client, token_id, payer, recipient) = stream_fixture(&env, DEPOSIT);
    let token = token::Client::new(&env, &token_id);

    let id = open_single_stream(&env, &client, &token_id, &payer, &recipient, RATE, DEPOSIT);
    advance_by(&env, 10);

    client.pause_stream(&id, &payer);
    advance_by(&env, 100);
    client.resume_stream(&id, &payer);

    advance_by(&env, 10);

    client.pause_stream(&id, &payer);
    advance_by(&env, 200);

    // Close while on the second pause.
    client.close_stream(&id, &payer);

    // 10 + 10 = 20 ledgers of active streaming.
    let streamed = RATE * 20;
    assert_eq!(token.balance(&recipient), streamed);
    assert_eq!(token.balance(&payer), DEPOSIT - streamed);
    assert_eq!(token.balance(&contract_id), 0);

    let stream = client.get_stream(&id);
    // 100 + 200 = 300 ledgers of paused time.
    assert_eq!(stream.paused_ledgers, 300);
    assert!(!stream.paused);
}

#[test]
#[should_panic(expected = "stream already paused")]
fn test_double_pause_rejected() {
    let env = new_env();
    let (_, client, token_id, payer, recipient) = stream_fixture(&env, DEPOSIT);

    let id = open_single_stream(&env, &client, &token_id, &payer, &recipient, RATE, DEPOSIT);
    client.pause_stream(&id, &payer);
    client.pause_stream(&id, &payer);
}

#[test]
#[should_panic(expected = "stream is not paused")]
fn test_resume_without_pause_rejected() {
    let env = new_env();
    let (_, client, token_id, payer, recipient) = stream_fixture(&env, DEPOSIT);

    let id = open_single_stream(&env, &client, &token_id, &payer, &recipient, RATE, DEPOSIT);
    client.resume_stream(&id, &payer);
}

#[test]
#[should_panic(expected = "unauthorized")]
fn test_pause_requires_payer() {
    let env = new_env();
    let (_, client, token_id, payer, recipient) = stream_fixture(&env, DEPOSIT);

    let id = open_single_stream(&env, &client, &token_id, &payer, &recipient, RATE, DEPOSIT);
    client.pause_stream(&id, &recipient);
}

#[test]
#[should_panic(expected = "stream is closed")]
fn test_pause_after_close_rejected() {
    let env = new_env();
    let (_, client, token_id, payer, recipient) = stream_fixture(&env, DEPOSIT);

    let id = open_single_stream(&env, &client, &token_id, &payer, &recipient, RATE, DEPOSIT);
    client.close_stream(&id, &payer);
    client.pause_stream(&id, &payer);
}

// ── Schema versioning / migration ────────────────────────────────

#[test]
fn test_initialize_sets_schema_version() {
    let env = new_env();
    let contract_id = env.register(Host, ());
    let client = Client::new(&env, &contract_id);
    client.initialize(&Address::generate(&env));

    assert_eq!(client.get_schema_version(), SCHEMA_VERSION);
}

#[test]
fn test_migrate_stamps_unversioned_instance() {
    let env = new_env();
    let contract_id = env.register(Host, ());
    let client = Client::new(&env, &contract_id);
    let admin = Address::generate(&env);
    client.initialize(&admin);
    env.mock_all_auths();

    // Simulate an instance deployed before versioning existed.
    env.as_contract(&contract_id, || {
        env.storage().persistent().remove(&(Symbol::new(&env, "SchemaVersion"),));
    });
    assert_eq!(client.get_schema_version(), 0);

    assert_eq!(client.migrate(&admin), SCHEMA_VERSION);
    assert_eq!(client.get_schema_version(), SCHEMA_VERSION);
}

#[test]
fn test_migrate_rejects_current_version() {
    let env = new_env();
    let contract_id = env.register(Host, ());
    let client = Client::new(&env, &contract_id);
    let admin = Address::generate(&env);
    client.initialize(&admin);
    env.mock_all_auths();

    let result = client.try_migrate(&admin);
    assert!(result.is_err(), "migrate on current schema must fail");
    assert_eq!(
        result.unwrap_err().unwrap(),
        ContractError::SchemaAlreadyCurrent,
    );
}

#[test]
fn test_migrate_rejects_downgrade() {
    let env = new_env();
    let contract_id = env.register(Host, ());
    let client = Client::new(&env, &contract_id);
    let admin = Address::generate(&env);
    client.initialize(&admin);
    env.mock_all_auths();

    // Simulate a stored schema version higher than SCHEMA_VERSION.
    env.as_contract(&contract_id, || {
        env.storage()
            .persistent()
            .set(&(Symbol::new(&env, "SchemaVersion"),), &(SCHEMA_VERSION + 1));
    });

    let result = client.try_migrate(&admin);
    assert!(result.is_err(), "migrate downgrade must fail");
    assert_eq!(result.unwrap_err().unwrap(), ContractError::SchemaDowngrade,);
}

#[test]
#[should_panic(expected = "Unauthorized")]
fn test_migrate_requires_admin() {
    let env = new_env();
    let contract_id = env.register(Host, ());
    let client = Client::new(&env, &contract_id);
    let admin = Address::generate(&env);
    client.initialize(&admin);
    env.mock_all_auths();

    env.as_contract(&contract_id, || {
        env.storage().persistent().remove(&(Symbol::new(&env, "SchemaVersion"),));
    });
    client.migrate(&Address::generate(&env));
}

// ── Invariant: claimed never exceeds deposited ───────────────────

/// Deterministic linear congruential generator.
///
/// Seeded per run so a failing sequence is reproducible from the seed in
/// the assertion message — no external RNG crate, and no flaky CI.
struct Lcg(u64);

impl Lcg {
    fn new(seed: u64) -> Self {
        Lcg(seed.wrapping_mul(0x9E37_79B9_7F4A_7C15))
    }

    fn next_u64(&mut self) -> u64 {
        self.0 = self
            .0
            .wrapping_mul(6_364_136_223_846_793_005)
            .wrapping_add(1_442_695_040_888_963_407);
        self.0 >> 33
    }

    fn below(&mut self, bound: u64) -> u64 {
        self.next_u64() % bound
    }
}

const STREAMS: usize = 3;
const OPS_PER_RUN: usize = 80;
const FUNDING: i128 = 100_000_000;

/// Property test: across randomized sequences of open/claim/top_up/
/// pause/resume/close, `claimed <= deposited` must hold after *every*
/// call, and the contract must stay solvent for what it still owes.
#[test]
fn test_invariant_claimed_never_exceeds_deposited() {
    for seed in 1..=8u64 {
        let env = new_env();
        let (contract_id, client, token_id, payer, recipient) = stream_fixture(&env, FUNDING);
        let token = token::Client::new(&env, &token_id);

        let mut ids = [0u32; STREAMS];
        for id_slot in ids.iter_mut() {
            *id_slot =
                open_single_stream(&env, &client, &token_id, &payer, &recipient, RATE, DEPOSIT);
        }
        let mut closed = [false; STREAMS];
        let mut paused = [false; STREAMS];

        let mut rng = Lcg::new(seed);
        for step in 0..OPS_PER_RUN {
            let idx = rng.below(STREAMS as u64) as usize;
            let id = ids[idx];

            match rng.below(7) {
                // Let time pass, sometimes far past the funded window.
                0 | 1 => advance_by(&env, 1 + rng.below(400) as u32),
                2 => {
                    if !closed[idx] {
                        client.claim_stream(&id, &recipient);
                    }
                }
                3 => {
                    if !closed[idx] {
                        let amount = MIN_STREAM_DEPOSIT * (1 + rng.below(5) as i128);
                        client.top_up_stream(&id, &payer, &amount);
                    }
                }
                4 => {
                    if !closed[idx] && !paused[idx] {
                        client.pause_stream(&id, &payer);
                        paused[idx] = true;
                    }
                }
                5 => {
                    if !closed[idx] && paused[idx] {
                        client.resume_stream(&id, &payer);
                        paused[idx] = false;
                    }
                }
                _ => {
                    if !closed[idx] {
                        client.close_stream(&id, &payer);
                        closed[idx] = true;
                        paused[idx] = false;
                    }
                }
            }

            // Invariant check after every single call.
            let mut outstanding: i128 = 0;
            for (slot, stream_id) in ids.iter().enumerate() {
                let stream = client.get_stream(stream_id);
                let claimed = claimed_of(&stream);
                assert!(
                    claimed <= stream.deposited,
                    "invariant violated (seed {}, step {}, stream {}): claimed {} > deposited {}",
                    seed,
                    step,
                    slot,
                    claimed,
                    stream.deposited
                );
                assert!(
                    claimed >= 0,
                    "negative claimed (seed {}, step {}, stream {}): {}",
                    seed,
                    step,
                    slot,
                    claimed
                );

                let claimable = client.get_claimable(stream_id, &recipient);
                assert!(
                    claimable <= stream.deposited - claimed,
                    "claimable {} exceeds remaining deposit (seed {}, step {}, stream {})",
                    claimable,
                    seed,
                    step,
                    slot
                );

                if !closed[slot] {
                    outstanding += stream.deposited - claimed;
                }
            }

            // Solvency: the contract still holds exactly what it owes.
            assert_eq!(
                token.balance(&contract_id),
                outstanding,
                "contract balance does not cover outstanding streams (seed {}, step {})",
                seed,
                step
            );
        }
    }
}

// More of the contract at work.

#[test]
fn admin_is_handed_over_with_a_signature() {
    let env = new_env();
    let contract_id = env.register(Host, ());
    let client = Client::new(&env, &contract_id);
    let (admin, heir) = (Address::generate(&env), Address::generate(&env));
    client.initialize(&admin);
    env.mock_all_auths();
    client.transfer_admin(&admin, &heir);
    let auths = env.auths();
    assert_eq!(auths.len(), 1);
    assert_eq!(auths[0].0, admin);
    assert_eq!(client.get_admin(), heir);
}

#[test]
fn batch_moves_every_amount_from_the_sender() {
    let env = new_env();
    let contract_id = env.register(Host, ());
    let client = Client::new(&env, &contract_id);
    let admin = Address::generate(&env);
    client.initialize(&admin);
    let (from, a, b) = (Address::generate(&env), Address::generate(&env), Address::generate(&env));
    env.mock_all_auths();
    let token_id = create_token(&env, &admin, &from, 100);
    let token = token::Client::new(&env, &token_id);
    let recipients = soroban_sdk::Vec::from_array(&env, [a.clone(), b.clone(), a.clone()]);
    let amounts = soroban_sdk::Vec::from_array(&env, [10i128, 20i128, 30i128]);
    client.batch_send(&token_id, &from, &recipients, &amounts);
    assert_eq!(token.balance(&from), 40);
    assert_eq!(token.balance(&a), 40);
    assert_eq!(token.balance(&b), 20);
    assert_eq!(token.balance(&contract_id), 0);
    assert_eq!(client.get_tip_total(&a), 40);
    assert_eq!(client.get_tip_record(&a, &1).amount, 30);
}

#[test]
fn failed_batch_leaves_nothing_behind() {
    let env = new_env();
    let contract_id = env.register(Host, ());
    let client = Client::new(&env, &contract_id);
    let admin = Address::generate(&env);
    client.initialize(&admin);
    let (from, a) = (Address::generate(&env), Address::generate(&env));
    env.mock_all_auths();
    let token_id = create_token(&env, &admin, &from, 100);
    let recipients = soroban_sdk::Vec::from_array(&env, [a.clone(), a.clone()]);
    let amounts = soroban_sdk::Vec::from_array(&env, [10i128, 0i128]);
    let args = [
        client.val(&token_id),
        client.val(&from),
        client.val(&recipients),
        client.val(&amounts),
    ];
    let result: Result<(), Result<ContractError, InvokeError>> =
        client.try_call("batch_send", &args);
    assert!(matches!(result, Err(Err(_))));
    assert_eq!(client.get_tip_count(&a), 0);
    assert_eq!(token::Client::new(&env, &token_id).balance(&from), 100);
}

#[test]
fn contract_holds_what_escrows_and_streams_are_owed() {
    let env = new_env();
    let (contract_id, client, token_id, payer, recipient) = stream_fixture(&env, 500_000);
    let token = token::Client::new(&env, &token_id);
    let second = Address::generate(&env);
    let id = client.open_stream(
        &token_id,
        &payer,
        &soroban_sdk::Vec::from_array(&env, [recipient.clone(), second.clone()]),
        &soroban_sdk::Vec::from_array(&env, [1u32, 2u32]),
        &RATE,
        &DEPOSIT,
    );
    let escrow = client.create_escrow(&token_id, &payer, &second, &7_000, &50);
    assert_eq!(token.balance(&contract_id), DEPOSIT + 7_000);
    advance_by(&env, 10);
    let paid = client.claim_stream(&id, &second);
    assert_eq!(paid, 666);
    assert_eq!(token.balance(&contract_id), DEPOSIT - 666 + 7_000);
    client.top_up_stream(&id, &payer, &500);
    client.cancel_escrow(&escrow);
    assert_eq!(token.balance(&contract_id), DEPOSIT + 500 - 666);
    let kept = client.create_escrow(&token_id, &payer, &second, &40, &50);
    client.close_stream(&id, &payer);
    assert_eq!(token.balance(&contract_id), 40);
    assert_eq!(client.get_escrow(&kept).status, EscrowStatus::Pending);
}

#[test]
fn legacy_receipts_are_still_read() {
    let env = new_env();
    let contract_id = env.register(Host, ());
    let client = Client::new(&env, &contract_id);
    let (payer, payee) = (Address::generate(&env), Address::generate(&env));
    env.as_contract(&contract_id, || {
        let mut record = soroban_sdk::Map::<Symbol, Val>::new(&env);
        record.set(Symbol::new(&env, "from"), payer.clone().into_val(&env));
        record.set(Symbol::new(&env, "to"), payee.clone().into_val(&env));
        record.set(Symbol::new(&env, "amount"), 12i128.into_val(&env));
        record.set(Symbol::new(&env, "timestamp"), 34u64.into_val(&env));
        record.set(Symbol::new(&env, "memo"), Symbol::new(&env, "tea").into_val(&env));
        record.set(Symbol::new(&env, "ledger"), 56u32.into_val(&env));
        let key = (Symbol::new(&env, "ReceiptRecord"), payer.clone(), 0u32);
        env.storage().persistent().set(&key, &record);
    });
    let receipt = client.get_legacy_receipt(&payer, &0);
    assert_eq!(receipt.memo, Symbol::new(&env, "tea"));
    assert_eq!(receipt.to, payee);
}
