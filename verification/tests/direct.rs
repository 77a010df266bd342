//! The library's functions one by one, on a storage of their own.
use soroban_sdk::testutils::storage::Persistent as _;
use soroban_sdk::testutils::{Address as _, ContractFunctionSet, EnvTestConfig, Ledger as _};
use soroban_sdk::{Address, Env, IntoVal, String, Symbol, TryFromVal, Val};
use stellar_micropay_contract::accrual::{
    claimable_amount, dry_ledgers, effective_elapsed_ledgers, find_recipient, paused_ledgers_total,
    total_claimed, total_streamed_amount, total_weight,
};
use stellar_micropay_contract::{
    Action, Answer, ContractError, Escrow, EscrowStatus, Event, Failure, LegacyReceiptMetadata,
    MicroPayContract, Party, ReceiptMetadata, Stream, StreamRecipient, Trap, EVENT_SCHEMA_VERSION,
    MAX_RECEIPT_MEMO_BYTES, MIN_STREAM_DEPOSIT, MIN_STREAM_DURATION_LEDGERS, SCHEMA_VERSION,
};

/// A contract without functions: its storage is what the tests need.
struct Empty;

impl ContractFunctionSet for Empty {
    fn call(&self, _func: &str, _env: Env, _args: &[Val]) -> Option<Val> {
        None
    }
}

struct Fixture {
    env: Env,
    contract: Address,
}

/// A transfer: the token, who pays, who is paid, and how much. The contract
/// itself is `None`.
type Moved = (Address, Option<Address>, Option<Address>, i128);

fn party(party: &Party) -> Option<Address> {
    match party {
        Party::Contract => None,
        Party::Account(address) => Some(address.clone()),
    }
}

fn transfers<T>(answer: &Answer<T>) -> Vec<Moved> {
    let mut found = Vec::new();
    for action in answer.actions.iter() {
        if let Action::Transfer { token, from, to, amount } = action {
            found.push((token.clone(), party(from), party(to), *amount));
        }
    }
    found
}

fn event_names<T>(answer: &Answer<T>) -> Vec<&'static str> {
    let mut found = Vec::new();
    for action in answer.actions.iter() {
        if let Action::Publish { version, event } = action {
            assert_eq!(*version, EVENT_SCHEMA_VERSION);
            found.push(event.name());
        }
    }
    found
}

fn trap_of<T>(answer: Answer<T>) -> Trap {
    assert!(answer.actions.is_empty());
    match answer.outcome {
        Err(Failure::Trap(trap)) => trap,
        Err(Failure::Error(error)) => panic!("error {:?} in place of a trap", error),
        Ok(_) => panic!("the call went through"),
    }
}

fn error_of<T>(answer: Answer<T>) -> ContractError {
    assert!(answer.actions.is_empty());
    match answer.outcome {
        Err(Failure::Error(error)) => error,
        Err(Failure::Trap(trap)) => panic!("trap {:?} in place of an error", trap),
        Ok(_) => panic!("the call went through"),
    }
}

fn value_of<T>(answer: Answer<T>) -> T {
    match answer.outcome {
        Ok(value) => value,
        Err(_) => panic!("the call failed"),
    }
}

impl Fixture {
    fn new() -> Self {
        let mut config = EnvTestConfig::default();
        config.capture_snapshot_at_drop = false;
        let env = Env::new_with_config(config);
        let contract = env.register(Empty, ());
        Fixture { env, contract }
    }

    fn address(&self) -> Address {
        Address::generate(&self.env)
    }

    /// Works on the storage of the contract.
    fn run<T>(&self, work: impl FnOnce(&mut Env) -> T) -> T {
        let mut env = self.env.clone();
        self.env.as_contract(&self.contract, || work(&mut env))
    }

    fn name(&self, text: &str) -> Symbol {
        Symbol::new(&self.env, text)
    }

    fn addresses(&self, items: &[Address]) -> soroban_sdk::Vec<Address> {
        soroban_sdk::Vec::from_slice(&self.env, items)
    }

    fn numbers(&self, items: &[u32]) -> soroban_sdk::Vec<u32> {
        soroban_sdk::Vec::from_slice(&self.env, items)
    }

    fn amounts(&self, items: &[i128]) -> soroban_sdk::Vec<i128> {
        soroban_sdk::Vec::from_slice(&self.env, items)
    }

    /// A list whose one item is a text.
    fn texts(&self) -> Val {
        let text: Val = String::from_str(&self.env, "no address").into_val(&self.env);
        soroban_sdk::Vec::<Val>::from_array(&self.env, [text]).into_val(&self.env)
    }

    fn open(
        &self,
        recipients: &[Address],
        weights: &[u32],
        rate: i128,
        deposit: i128,
        now: u32,
    ) -> u32 {
        let payer = self.address();
        self.open_for(&payer, recipients, weights, rate, deposit, now)
    }

    fn open_for(
        &self,
        payer: &Address,
        recipients: &[Address],
        weights: &[u32],
        rate: i128,
        deposit: i128,
        now: u32,
    ) -> u32 {
        let token = self.address();
        let tos = self.addresses(recipients);
        let parts = self.numbers(weights);
        let payer = payer.clone();
        value_of(self.run(|env| {
            MicroPayContract::open_stream_at(env, token, payer, tos, parts, rate, deposit, now)
        }))
    }

    fn refused(&self, recipients: &[Address], weights: &[u32], rate: i128, deposit: i128) -> Trap {
        let payer = self.address();
        let token = self.address();
        let tos = self.addresses(recipients);
        let parts = self.numbers(weights);
        trap_of(self.run(|env| {
            MicroPayContract::open_stream_at(env, token, payer, tos, parts, rate, deposit, 7)
        }))
    }

    fn stream(&self, id: u32) -> Stream {
        match self.run(|env| MicroPayContract::get_stream(env, id)) {
            Ok(stream) => stream,
            Err(trap) => panic!("{:?}", trap),
        }
    }

    fn claimable(&self, id: u32, who: &Address, now: u32) -> Result<i128, Trap> {
        self.run(|env| MicroPayContract::get_claimable_at(env, id, who.clone(), now))
    }

    fn claim(&self, id: u32, who: &Address, now: u32) -> Answer<i128> {
        self.run(|env| MicroPayContract::claim_stream_at(env, id, who.clone(), now))
    }

    fn escrow(&self, from: &Address, to: &Address, amount: i128, release: u32, now: u32) -> u32 {
        let token = self.address();
        value_of(self.run(|env| {
            MicroPayContract::create_escrow_at(
                env,
                token,
                from.clone(),
                to.clone(),
                amount,
                release,
                now,
            )
        }))
    }

    fn page(&self, sender: &Address, offset: u32, limit: u32) -> Vec<u32> {
        let sender = sender.clone();
        match self.run(|env| {
            MicroPayContract::list_escrow_ids_for_sender(env, sender, offset, limit)
        }) {
            Ok(ids) => ids.iter().collect(),
            Err(trap) => panic!("{:?}", trap),
        }
    }
}

fn share(recipient: &Address, weight: u32, claimed: i128) -> StreamRecipient {
    StreamRecipient { recipient: recipient.clone(), weight, claimed }
}

fn plain_stream(f: &Fixture, recipients: Vec<StreamRecipient>) -> Stream {
    Stream {
        payer: f.address(),
        recipients,
        stored: None,
        rate_per_ledger: 100,
        deposited: 100_000,
        start_ledger: 50,
        token: f.address(),
        paused: false,
        paused_at_ledger: 0,
        paused_ledgers: 0,
        closed: false,
    }
}

// Names and numbers.

#[test]
fn error_codes() {
    assert_eq!(ContractError::AlreadyInitialized.code(), 1);
    assert_eq!(ContractError::SchemaAlreadyCurrent.code(), 2);
    assert_eq!(ContractError::SchemaDowngrade.code(), 3);
    assert_eq!(ContractError::EscrowClaimTooEarly.code(), 4);
    assert_eq!(ContractError::EscrowCancelTooLate.code(), 5);
    assert_eq!(ContractError::ReceiptMemoTooLong.code(), 6);
}

#[test]
fn constants() {
    assert_eq!(SCHEMA_VERSION, 4);
    assert_eq!(EVENT_SCHEMA_VERSION, 1);
    assert_eq!(MAX_RECEIPT_MEMO_BYTES, 256);
    assert_eq!(MIN_STREAM_DEPOSIT, 10_000);
    assert_eq!(MIN_STREAM_DURATION_LEDGERS, 60);
}

#[test]
fn trap_messages() {
    assert_eq!(Trap::NotInitialized.message(), "Contract not initialized");
    assert_eq!(Trap::NotAdmin.message(), "Unauthorized");
    assert_eq!(Trap::TipAmountNotPositive.message(), "Tip amount must be positive");
    assert_eq!(Trap::EscrowIndexMissing.message(), "escrow index entry missing");
    assert_eq!(Trap::EscrowMissingInBackfill.message(), "escrow missing during index backfill");
    assert_eq!(Trap::NotStreamParty.message(), "unauthorized");
    assert_eq!(Trap::MultiplyOverflow.message(), "attempt to multiply with overflow");
}

/// The topics and the data of an event, as the host compares values.
fn published(f: &Fixture, event: &Event) -> (soroban_sdk::Vec<Val>, soroban_sdk::Vec<Val>) {
    let topics = soroban_sdk::Vec::from_slice(&f.env, &event.topics(&f.env));
    let data = event.data(&f.env, EVENT_SCHEMA_VERSION);
    match soroban_sdk::Vec::<Val>::try_from_val(&f.env, &data) {
        Ok(data) => (topics, data),
        Err(_) => panic!("the data is no list"),
    }
}

#[test]
fn events_of_payments() {
    let f = Fixture::new();
    let env = &f.env;
    let (a, b) = (f.address(), f.address());
    assert_eq!(
        published(&f, &Event::Init { admin: a.clone() }),
        ((f.name("init"),).into_val(env), (1u32, a.clone()).into_val(env))
    );
    assert_eq!(
        published(&f, &Event::Tip { from: a.clone(), to: b.clone(), amount: 9 }),
        ((f.name("tip"), a.clone(), b.clone()).into_val(env), (1u32, 9i128).into_val(env))
    );
    assert_eq!(
        published(&f, &Event::Receipt { from: a.clone(), index: 3 }),
        ((f.name("receipt"), a.clone()).into_val(env), (1u32, 3u32).into_val(env))
    );
    assert_eq!(
        published(&f, &Event::Migrate { from_version: 2, to_version: 4 }),
        ((f.name("migrate"),).into_val(env), (1u32, 2u32, 4u32).into_val(env))
    );
}

#[test]
fn events_of_escrows() {
    let f = Fixture::new();
    let env = &f.env;
    let (a, b) = (f.address(), f.address());
    let created = Event::EscrowCreate {
        id: 5,
        from: a.clone(),
        to: b.clone(),
        amount: 70,
        release_ledger: 8,
    };
    assert_eq!(
        published(&f, &created),
        (
            (f.name("escrow_create"), 5u32).into_val(env),
            (1u32, a.clone(), b.clone(), 70i128, 8u32).into_val(env)
        )
    );
    assert_eq!(
        published(&f, &Event::EscrowClaim { id: 5, to: b.clone(), amount: 70 }),
        (
            (f.name("escrow_claim"), 5u32).into_val(env),
            (1u32, b.clone(), 70i128).into_val(env)
        )
    );
    assert_eq!(
        published(&f, &Event::EscrowCancel { id: 5, from: a.clone(), amount: 70 }),
        (
            (f.name("escrow_cancel"), 5u32).into_val(env),
            (1u32, a.clone(), 70i128).into_val(env)
        )
    );
}

#[test]
fn events_of_streams() {
    let f = Fixture::new();
    let env = &f.env;
    let (a, b) = (f.address(), f.address());
    let opened = Event::StreamOpen {
        id: 2,
        payer: a.clone(),
        recipients: f.addresses(&[b.clone(), a.clone()]),
        weights: f.numbers(&[1, 3]),
        rate_per_ledger: 100,
        deposit: 100_000,
    };
    let details: soroban_sdk::Vec<Val> = (
        1u32,
        a.clone(),
        f.addresses(&[b.clone(), a.clone()]),
        f.numbers(&[1, 3]),
        100i128,
        100_000i128,
    )
        .into_val(env);
    assert_eq!(published(&f, &opened), ((f.name("stream_open"), 2u32).into_val(env), details));
    assert_eq!(
        published(&f, &Event::StreamClaim { id: 2, recipient: b.clone(), amount: 6 }),
        (
            (f.name("stream_claim"), 2u32).into_val(env),
            (1u32, b.clone(), 6i128).into_val(env)
        )
    );
    let topped = Event::StreamTopUp { id: 2, payer: a.clone(), amount: 6, deposited: 60 };
    assert_eq!(
        published(&f, &topped),
        (
            (f.name("stream_topup"), 2u32).into_val(env),
            (1u32, a.clone(), 6i128, 60i128).into_val(env)
        )
    );
    assert_eq!(
        published(&f, &Event::StreamPause { id: 2, payer: a.clone(), paused_at_ledger: 11 }),
        (
            (f.name("stream_pause"), 2u32).into_val(env),
            (1u32, a.clone(), 11u32).into_val(env)
        )
    );
    assert_eq!(
        published(&f, &Event::StreamResume { id: 2, payer: a.clone(), pause_length: 12 }),
        (
            (f.name("stream_resume"), 2u32).into_val(env),
            (1u32, a.clone(), 12u32).into_val(env)
        )
    );
    assert_eq!(
        published(&f, &Event::StreamClose { id: 2, owed: 13, refund: 14 }),
        (
            (f.name("stream_close"), 2u32).into_val(env),
            (1u32, 13i128, 14i128).into_val(env)
        )
    );
}

// The administrator and the layout.

#[test]
fn initialize_writes_admin_and_version() {
    let f = Fixture::new();
    let admin = f.address();
    let answer = f.run(|env| MicroPayContract::initialize(env, admin.clone()));
    assert!(answer.signer.is_none());
    assert_eq!(event_names(&answer), vec!["init"]);
    assert!(answer.outcome.is_ok());
    f.run(|env| {
        let stored: Address = env.storage().persistent().get(&(f.name("Admin"),)).unwrap();
        assert_eq!(stored, admin);
        let version: u32 = env.storage().persistent().get(&(f.name("SchemaVersion"),)).unwrap();
        assert_eq!(version, 4);
        assert_eq!(MicroPayContract::get_schema_version(env), Ok(4));
        assert_eq!(MicroPayContract::get_admin(env), Ok(admin.clone()));
    });
    let again = f.run(|env| MicroPayContract::initialize(env, f.address()));
    assert_eq!(error_of(again), ContractError::AlreadyInitialized);
    assert_eq!(f.run(|env| MicroPayContract::get_admin(env)), Ok(admin));
}

#[test]
fn admin_is_handed_over_by_the_admin_only() {
    let f = Fixture::new();
    let (admin, heir, stranger) = (f.address(), f.address(), f.address());
    let early = f.run(|env| MicroPayContract::transfer_admin(env, admin.clone(), heir.clone()));
    assert_eq!(early.signer, Some(admin.clone()));
    assert_eq!(trap_of(early), Trap::NotInitialized);
    assert_eq!(f.run(|env| MicroPayContract::get_admin(env)), Err(Trap::NotInitialized));
    f.run(|env| value_of(MicroPayContract::initialize(env, admin.clone())));

    let stolen =
        f.run(|env| MicroPayContract::transfer_admin(env, stranger.clone(), stranger.clone()));
    assert_eq!(stolen.signer, Some(stranger));
    assert_eq!(trap_of(stolen), Trap::NotAdmin);
    let handed = f.run(|env| MicroPayContract::transfer_admin(env, admin.clone(), heir.clone()));
    assert_eq!(handed.signer, Some(admin.clone()));
    assert!(handed.actions.is_empty());
    assert!(handed.outcome.is_ok());
    assert_eq!(f.run(|env| MicroPayContract::get_admin(env)), Ok(heir.clone()));
    let back = f.run(|env| MicroPayContract::transfer_admin(env, admin.clone(), admin.clone()));
    assert_eq!(trap_of(back), Trap::NotAdmin);
}

#[test]
fn written_and_read_entries_are_kept_alive() {
    let f = Fixture::new();
    let admin = f.address();
    f.run(|env| value_of(MicroPayContract::initialize(env, admin.clone())));
    let ttl = |name: &str| f.run(|env| env.storage().persistent().get_ttl(&(f.name(name),)));
    assert_eq!(ttl("Admin"), 500_000);
    assert_eq!(ttl("SchemaVersion"), 500_000);

    f.env.ledger().with_mut(|info| info.sequence_number = 399_999);
    assert_eq!(f.run(|env| MicroPayContract::get_admin(env)), Ok(admin.clone()));
    assert_eq!(ttl("Admin"), 100_001);
    f.env.ledger().with_mut(|info| info.sequence_number = 400_000);
    assert_eq!(f.run(|env| MicroPayContract::get_schema_version(env)), Ok(4));
    assert_eq!(ttl("SchemaVersion"), 100_000);
    assert_eq!(f.run(|env| MicroPayContract::get_admin(env)), Ok(admin));
    assert_eq!(ttl("Admin"), 500_000);
}

#[test]
fn lifetimes_stop_at_what_the_host_allows() {
    let f = Fixture::new();
    f.env.ledger().with_mut(|info| info.max_entry_ttl = 300_000);
    f.run(|env| value_of(MicroPayContract::initialize(env, f.address())));
    let left = f.run(|env| env.storage().persistent().get_ttl(&(f.name("Admin"),)));
    assert_eq!(left, 299_999);
}

#[test]
fn migration_is_for_the_admin_and_done_once() {
    let f = Fixture::new();
    let (admin, stranger) = (f.address(), f.address());
    let early = f.run(|env| MicroPayContract::migrate(env, admin.clone()));
    assert_eq!(trap_of(early), Trap::NotInitialized);
    f.run(|env| value_of(MicroPayContract::initialize(env, admin.clone())));
    f.run(|env| env.storage().persistent().set(&(f.name("SchemaVersion"),), &3u32));

    let stolen = f.run(|env| MicroPayContract::migrate(env, stranger.clone()));
    assert_eq!(stolen.signer, Some(stranger));
    assert_eq!(trap_of(stolen), Trap::NotAdmin);
    let answer = f.run(|env| MicroPayContract::migrate(env, admin.clone()));
    assert_eq!(answer.signer, Some(admin.clone()));
    assert_eq!(event_names(&answer), vec!["migrate"]);
    assert_eq!(value_of(answer), 4);
    let again = f.run(|env| MicroPayContract::migrate(env, admin.clone()));
    assert_eq!(error_of(again), ContractError::SchemaAlreadyCurrent);

    f.run(|env| env.storage().persistent().set(&(f.name("SchemaVersion"),), &5u32));
    let down = f.run(|env| MicroPayContract::migrate(env, admin.clone()));
    assert_eq!(error_of(down), ContractError::SchemaDowngrade);
}

#[test]
fn migration_puts_every_escrow_into_the_lists() {
    let f = Fixture::new();
    let (admin, a, b, c) = (f.address(), f.address(), f.address(), f.address());
    f.run(|env| value_of(MicroPayContract::initialize(env, admin.clone())));
    f.escrow(&a, &b, 10, 9, 1);
    f.escrow(&b, &c, 20, 9, 1);
    f.escrow(&a, &c, 30, 9, 1);
    f.run(|env| {
        for who in [&a, &b, &c] {
            for list in ["EscrowSenderCount", "EscrowRecipientCount"] {
                env.storage().persistent().remove(&(f.name(list), who.clone()));
            }
        }
        env.storage().persistent().remove(&(f.name("SchemaVersion"),));
    });
    assert_eq!(f.page(&a, 0, 0), Vec::<u32>::new());
    assert_eq!(value_of(f.run(|env| MicroPayContract::migrate(env, admin.clone()))), 4);
    assert_eq!(f.page(&a, 0, 0), vec![0, 2]);
    assert_eq!(f.page(&b, 0, 0), vec![1]);
    let due = f.run(|env| MicroPayContract::list_escrow_ids_for_recipient(env, c.clone(), 0, 0));
    let due: Vec<u32> = due.unwrap().iter().collect();
    assert_eq!(due, vec![1, 2]);
    assert_eq!(f.run(|env| MicroPayContract::get_escrow_count(env)), Ok(3));
}

#[test]
fn migration_traps_on_a_missing_escrow() {
    let f = Fixture::new();
    let admin = f.address();
    f.run(|env| value_of(MicroPayContract::initialize(env, admin.clone())));
    f.escrow(&f.address(), &f.address(), 10, 9, 1);
    f.run(|env| {
        env.storage().persistent().set(&(f.name("SchemaVersion"),), &2u32);
        env.storage().persistent().remove(&(f.name("Escrow"), 0u32));
    });
    let answer = f.run(|env| MicroPayContract::migrate(env, admin.clone()));
    assert_eq!(trap_of(answer), Trap::EscrowMissingInBackfill);
}

// Tips.

#[test]
fn tip_is_recorded_and_asked_for() {
    let f = Fixture::new();
    let (token, from, to) = (f.address(), f.address(), f.address());
    let answer = f.run(|env| {
        MicroPayContract::send_tip_at(env, token.clone(), from.clone(), to.clone(), 250, 33)
    });
    assert_eq!(answer.signer, Some(from.clone()));
    assert_eq!(event_names(&answer), vec!["tip"]);
    assert!(matches!(answer.actions[0], Action::Publish { .. }));
    assert_eq!(
        transfers(&answer),
        vec![(token.clone(), Some(from.clone()), Some(to.clone()), 250)]
    );
    assert!(answer.outcome.is_ok());
    f.run(|env| {
        let record = MicroPayContract::get_tip_record(env, to.clone(), 0).unwrap();
        assert_eq!(record.from, from);
        assert_eq!(record.to, to);
        assert_eq!(record.amount, 250);
        assert_eq!(record.ledger, 33);
        let missing = MicroPayContract::get_tip_record(env, to.clone(), 1);
        assert_eq!(missing.unwrap_err(), Trap::TipRecordNotFound);
        assert_eq!(MicroPayContract::get_tip_total(env, to.clone()), Ok(250));
        assert_eq!(MicroPayContract::get_tip_count(env, to.clone()), Ok(1));
        assert_eq!(MicroPayContract::get_tip_count(env, from.clone()), Ok(0));
    });
}

#[test]
fn tip_record_is_a_map_from_field_names() {
    let f = Fixture::new();
    let (token, from, to) = (f.address(), f.address(), f.address());
    f.run(|env| {
        value_of(MicroPayContract::send_tip_at(env, token, from.clone(), to.clone(), 250, 33));
        let key = (f.name("TipRecord"), to.clone(), 0u32);
        let record: soroban_sdk::Map<Symbol, Val> = env.storage().persistent().get(&key).unwrap();
        assert_eq!(record.len(), 4);
        let amount = record.get(f.name("amount")).unwrap();
        assert_eq!(i128::try_from_val(env, &amount).unwrap(), 250);
        let ledger = record.get(f.name("ledger")).unwrap();
        assert_eq!(u32::try_from_val(env, &ledger).unwrap(), 33);
        let sender = record.get(f.name("from")).unwrap();
        assert_eq!(Address::try_from_val(env, &sender).unwrap(), from);
    });
}

#[test]
fn tips_that_do_not_fit_trap() {
    let f = Fixture::new();
    let (token, from, to) = (f.address(), f.address(), f.address());
    let tip = |amount: i128| {
        f.run(|env| {
            MicroPayContract::send_tip_at(env, token.clone(), from.clone(), to.clone(), amount, 1)
        })
    };
    assert_eq!(trap_of(tip(0)), Trap::TipAmountNotPositive);
    assert_eq!(trap_of(tip(-1)), Trap::TipAmountNotPositive);
    value_of(tip(i128::MAX));
    assert_eq!(trap_of(tip(1)), Trap::AddOverflow);
    assert_eq!(f.run(|env| MicroPayContract::get_tip_count(env, to.clone())), Ok(1));
    f.run(|env| {
        env.storage().persistent().set(&(f.name("TipTotal"), to.clone()), &0i128);
        env.storage().persistent().set(&(f.name("TipCount"), to.clone()), &u32::MAX);
    });
    assert_eq!(trap_of(tip(1)), Trap::AddOverflow);
    f.run(|env| env.storage().persistent().set(&(f.name("TipTotal"), to.clone()), &7u32));
    assert_eq!(trap_of(tip(1)), Trap::MalformedEntry);
    let total = f.run(|env| MicroPayContract::get_tip_total(env, to.clone()));
    assert_eq!(total, Err(Trap::MalformedEntry));
}

#[test]
fn batch_is_tips_one_after_the_other() {
    let f = Fixture::new();
    let (token, from, a, b) = (f.address(), f.address(), f.address(), f.address());
    let tos = f.addresses(&[a.clone(), b.clone(), a.clone()]);
    let sums = f.amounts(&[10, 20, 30]);
    let answer = f.run(|env| {
        MicroPayContract::batch_send_at(env, token.clone(), from.clone(), tos, sums, 44)
    });
    assert_eq!(answer.signer, Some(from.clone()));
    assert_eq!(event_names(&answer), Vec::<&str>::new());
    assert_eq!(
        transfers(&answer),
        vec![
            (token.clone(), Some(from.clone()), Some(a.clone()), 10),
            (token.clone(), Some(from.clone()), Some(b.clone()), 20),
            (token.clone(), Some(from.clone()), Some(a.clone()), 30),
        ]
    );
    f.run(|env| {
        assert_eq!(MicroPayContract::get_tip_total(env, a.clone()), Ok(40));
        assert_eq!(MicroPayContract::get_tip_count(env, a.clone()), Ok(2));
        assert_eq!(MicroPayContract::get_tip_total(env, b.clone()), Ok(20));
        let last = MicroPayContract::get_tip_record(env, a.clone(), 1).unwrap();
        assert_eq!((last.amount, last.ledger), (30, 44));
        assert_eq!(last.from, from);
    });
}

#[test]
fn batches_that_are_refused() {
    let f = Fixture::new();
    let (token, from, a) = (f.address(), f.address(), f.address());
    let send = |tos: &soroban_sdk::Vec<Address>, sums: &soroban_sdk::Vec<i128>| {
        let (tos, sums) = (tos.clone(), sums.clone());
        f.run(|env| MicroPayContract::batch_send_at(env, token.clone(), from.clone(), tos, sums, 1))
    };
    let one = f.addresses(&[a.clone()]);
    let two = f.addresses(&[a.clone(), a.clone()]);
    assert_eq!(trap_of(send(&one, &f.amounts(&[1, 2]))), Trap::UnequalArrays);
    assert_eq!(trap_of(send(&two, &f.amounts(&[1, 0]))), Trap::AmountNotPositive);
    assert_eq!(trap_of(send(&two, &f.amounts(&[i128::MAX, 1]))), Trap::AddOverflow);
    let wrong = soroban_sdk::Vec::<Address>::try_from_val(&f.env, &f.texts()).unwrap();
    assert_eq!(trap_of(send(&wrong, &f.amounts(&[1]))), Trap::MalformedArgument);
    let wrong = soroban_sdk::Vec::<i128>::try_from_val(&f.env, &f.texts()).unwrap();
    assert_eq!(trap_of(send(&one, &wrong)), Trap::MalformedArgument);
    let none = send(&f.addresses(&[]), &f.amounts(&[]));
    assert!(none.actions.is_empty());
    assert!(none.outcome.is_ok());
}

// Receipts.

#[test]
fn receipt_carries_time_and_ledger() {
    let f = Fixture::new();
    let (from, to) = (f.address(), f.address());
    f.env.ledger().with_mut(|info| {
        info.sequence_number = 321;
        info.timestamp = 1_700_000_000;
    });
    let memo = String::from_str(&f.env, "Rent");
    let answer = f.run(|env| {
        MicroPayContract::mint_receipt(env, from.clone(), to.clone(), 1_000, memo.clone())
    });
    assert_eq!(answer.signer, Some(from.clone()));
    assert_eq!(event_names(&answer), vec!["receipt"]);
    assert!(transfers(&answer).is_empty());
    assert_eq!(value_of(answer), 0);
    let receipt = f.run(|env| MicroPayContract::get_receipt(env, from.clone(), 0)).unwrap();
    assert_eq!(receipt.timestamp, 1_700_000_000);
    assert_eq!(receipt.ledger, 321);
    assert_eq!(receipt.memo, memo);
    assert_eq!(receipt.to, to);
}

#[test]
fn receipts_that_are_refused() {
    let f = Fixture::new();
    let (from, to) = (f.address(), f.address());
    let mint = |amount: i128, memo: &str| {
        let receipt = ReceiptMetadata {
            from: from.clone(),
            to: to.clone(),
            amount,
            timestamp: 5,
            memo: String::from_str(&f.env, memo),
            ledger: 6,
        };
        f.run(|env| MicroPayContract::mint_receipt_as(env, receipt))
    };
    assert_eq!(trap_of(mint(0, "x")), Trap::ReceiptAmountNotPositive);
    let long = "x".repeat(257);
    assert_eq!(trap_of(mint(-3, &long)), Trap::ReceiptAmountNotPositive);
    let refused = mint(1, &long);
    assert_eq!(refused.signer, Some(from.clone()));
    assert_eq!(error_of(refused), ContractError::ReceiptMemoTooLong);
    assert_eq!(value_of(mint(1, &long[..256])), 0);
    assert_eq!(value_of(mint(2, "")), 1);
    let second = f.run(|env| MicroPayContract::get_receipt(env, from.clone(), 1)).unwrap();
    assert_eq!((second.amount, second.memo.len()), (2, 0));
    let missing = f.run(|env| MicroPayContract::get_receipt(env, from.clone(), 2));
    assert_eq!(missing.unwrap_err(), Trap::ReceiptNotFound);
    f.run(|env| env.storage().persistent().set(&(f.name("ReceiptCount"), from.clone()), &u32::MAX));
    assert_eq!(trap_of(mint(1, "x")), Trap::AddOverflow);
}

#[test]
fn legacy_receipt_keeps_its_symbol() {
    let f = Fixture::new();
    let (from, to) = (f.address(), f.address());
    let missing = f.run(|env| MicroPayContract::get_legacy_receipt(env, from.clone(), 0));
    assert_eq!(missing.unwrap_err(), Trap::LegacyReceiptNotFound);
    f.run(|env| {
        let mut record = soroban_sdk::Map::<Symbol, Val>::new(env);
        record.set(f.name("from"), from.clone().into_val(env));
        record.set(f.name("to"), to.clone().into_val(env));
        record.set(f.name("amount"), 12i128.into_val(env));
        record.set(f.name("timestamp"), 34u64.into_val(env));
        record.set(f.name("memo"), f.name("coffee").into_val(env));
        record.set(f.name("ledger"), 56u32.into_val(env));
        let key = (f.name("ReceiptRecord"), from.clone(), 0u32);
        env.storage().persistent().set(&key, &record);
        let receipt = MicroPayContract::get_legacy_receipt(env, from.clone(), 0).unwrap();
        assert_eq!(receipt.from, from);
        assert_eq!(receipt.to, to);
        assert_eq!((receipt.amount, receipt.timestamp, receipt.ledger), (12, 34, 56));
        assert_eq!(receipt.memo, f.name("coffee"));
        assert_eq!(env.storage().persistent().get_ttl(&key), 500_000);
        let current = MicroPayContract::get_receipt(env, from.clone(), 0);
        assert_eq!(current.unwrap_err(), Trap::ReceiptNotFound);
    });
}

#[test]
fn records_of_another_shape_are_malformed() {
    let f = Fixture::new();
    let (from, to) = (f.address(), f.address());
    f.run(|env| {
        let mut record = soroban_sdk::Map::<Symbol, Val>::new(env);
        record.set(f.name("from"), from.clone().into_val(env));
        record.set(f.name("to"), to.clone().into_val(env));
        record.set(f.name("amount"), 12u32.into_val(env));
        record.set(f.name("ledger"), 56u32.into_val(env));
        let key = (f.name("TipRecord"), to.clone(), 0u32);
        env.storage().persistent().set(&key, &record);
        let tip = MicroPayContract::get_tip_record(env, to.clone(), 0);
        assert_eq!(tip.unwrap_err(), Trap::MalformedEntry);
        record.set(f.name("amount"), 12i128.into_val(env));
        env.storage().persistent().set(&key, &record);
        let tip = MicroPayContract::get_tip_record(env, to.clone(), 0).unwrap();
        assert_eq!((tip.amount, tip.ledger), (12, 56));
        record.remove(f.name("ledger"));
        env.storage().persistent().set(&key, &record);
        let tip = MicroPayContract::get_tip_record(env, to.clone(), 0);
        assert_eq!(tip.unwrap_err(), Trap::MalformedEntry);
        record.set(f.name("ledger"), 56u32.into_val(env));
        record.set(f.name("zone"), 1u32.into_val(env));
        env.storage().persistent().set(&key, &record);
        assert!(MicroPayContract::get_tip_record(env, to.clone(), 0).is_ok());
        // One key that is no name spoils the record, wherever the host sorts it.
        for other in [7u32.into_val(env), to.clone().into_val(env)] {
            let value: Val = record.clone().into_val(env);
            let mut mixed = soroban_sdk::Map::<Val, Val>::try_from_val(env, &value).unwrap();
            mixed.set(other, 1u32.into_val(env));
            env.storage().persistent().set(&key, &mixed);
            let tip = MicroPayContract::get_tip_record(env, to.clone(), 0);
            assert_eq!(tip.unwrap_err(), Trap::MalformedEntry);
        }
        env.storage().persistent().set(&(f.name("Stream"), 0u32), &12u32);
        let stream = MicroPayContract::get_stream(env, 0);
        assert_eq!(stream.unwrap_err(), Trap::MalformedEntry);
    });
}

type Record = soroban_sdk::Map<Symbol, Val>;

/// The stored record of a stream.
fn record_of(f: &Fixture, id: u32) -> Record {
    f.run(|env| env.storage().persistent().get(&(f.name("Stream"), id)).unwrap())
}

/// The items of the stored list of recipients of a stream.
fn items_of(f: &Fixture, id: u32) -> Vec<Val> {
    let list = record_of(f, id).get(f.name("recipients")).unwrap();
    soroban_sdk::Vec::<Val>::try_from_val(&f.env, &list).unwrap().iter().collect()
}

/// Replaces the stored list of recipients of a stream.
fn store_items(f: &Fixture, id: u32, items: &[Val]) {
    let mut record = record_of(f, id);
    let list = soroban_sdk::Vec::<Val>::from_slice(&f.env, items).to_val();
    record.set(f.name("recipients"), list);
    f.run(|env| env.storage().persistent().set(&(f.name("Stream"), id), &record));
}

/// The number of fields of a share.
fn fields_of(f: &Fixture, item: &Val) -> u32 {
    Record::try_from_val(&f.env, item).unwrap().len()
}

#[test]
fn list_of_recipients_is_read_as_far_as_needed() {
    let f = Fixture::new();
    let (payer, a, b) = (f.address(), f.address(), f.address());
    let id = f.open_for(&payer, &[a.clone(), b.clone()], &[1, 3], 100, 100_000, 0);
    let mut items = items_of(&f, id);
    items.insert(1, 5u32.into_val(&f.env));
    store_items(&f, id, &items);
    // What does not read the list works, and keeps it.
    let stream = f.stream(id);
    assert_eq!(stream.recipients.len(), 1);
    assert_eq!(stream.stored.unwrap().len(), 3);
    value_of(f.run(|env| MicroPayContract::pause_stream_at(env, id, payer.clone(), 10)));
    value_of(f.run(|env| MicroPayContract::top_up_stream_at(env, id, payer.clone(), 7, 11)));
    value_of(f.run(|env| MicroPayContract::resume_stream_at(env, id, payer.clone(), 12)));
    assert_eq!(f.stream(id).deposited, 100_007);
    assert_eq!(f.stream(id).paused_ledgers, 2);
    assert_eq!(items_of(&f, id).len(), 3);
    assert_eq!(u32::try_from_val(&f.env, &items_of(&f, id)[1]), Ok(5));
    // What reads it does not.
    for who in [&a, &b, &payer] {
        assert_eq!(f.claimable(id, who, 20), Err(Trap::MalformedEntry));
        assert_eq!(trap_of(f.claim(id, who, 20)), Trap::MalformedEntry);
    }
    let closed = f.run(|env| MicroPayContract::close_stream_at(env, id, payer.clone(), 20));
    assert_eq!(trap_of(closed), Trap::MalformedEntry);
    // A closed stream pays nobody, and a recipient that comes first is found.
    let mut record = record_of(&f, id);
    record.set(f.name("closed"), true.into_val(&f.env));
    f.run(|env| env.storage().persistent().set(&(f.name("Stream"), id), &record));
    for who in [&a, &b, &payer] {
        assert_eq!(f.claimable(id, who, 20), Ok(0));
    }
    assert_eq!(trap_of(f.claim(id, &a, 20)), Trap::StreamClosed);
    assert_eq!(trap_of(f.claim(id, &b, 20)), Trap::MalformedEntry);
}

#[test]
fn items_that_are_not_paid_stay_as_they_are() {
    let f = Fixture::new();
    let (payer, a, b, c) = (f.address(), f.address(), f.address(), f.address());
    let three = [a.clone(), b.clone(), c.clone()];
    let id = f.open_for(&payer, &three, &[1, 2, 1], 100, 100_000, 0);
    let mut items = items_of(&f, id);
    for item in items.iter_mut() {
        let mut fields = Record::try_from_val(&f.env, item).unwrap();
        fields.set(f.name("note"), 9u32.into_val(&f.env));
        *item = fields.to_val();
    }
    store_items(&f, id, &items);
    let sizes = || -> Vec<u32> { items_of(&f, id).iter().map(|i| fields_of(&f, i)).collect() };
    assert_eq!(sizes(), vec![4, 4, 4]);
    value_of(f.run(|env| MicroPayContract::pause_stream_at(env, id, payer.clone(), 8)));
    value_of(f.run(|env| MicroPayContract::resume_stream_at(env, id, payer.clone(), 8)));
    assert_eq!(sizes(), vec![4, 4, 4]);
    assert_eq!(value_of(f.claim(id, &b, 10)), 500);
    assert_eq!(sizes(), vec![4, 3, 4]);
    let shares = f.stream(id).recipients;
    assert_eq!((shares[0].claimed, shares[1].claimed, shares[2].claimed), (0, 500, 0));
    // The first recipient was paid all that it gets: its item is not written.
    let mut items = items_of(&f, id);
    let mut fields = Record::try_from_val(&f.env, &items[0]).unwrap();
    fields.set(f.name("claimed"), 250i128.into_val(&f.env));
    items[0] = fields.to_val();
    store_items(&f, id, &items);
    let end = f.run(|env| MicroPayContract::close_stream_at(env, id, payer.clone(), 10));
    let paid: Vec<i128> = transfers(&end).iter().map(|moved| moved.3).collect();
    assert_eq!(paid, vec![250, 99_000]);
    assert_eq!(sizes(), vec![4, 3, 3]);
    assert!(f.stream(id).closed);
}

#[test]
fn receipts_are_cloned() {
    let f = Fixture::new();
    let (from, to) = (f.address(), f.address());
    let receipt = ReceiptMetadata {
        from: from.clone(),
        to: to.clone(),
        amount: 12,
        timestamp: 34,
        memo: String::from_str(&f.env, "rent"),
        ledger: 56,
    };
    let copy = receipt.clone();
    assert!(copy.from == from && copy.to == to && copy.memo == receipt.memo);
    assert_eq!((copy.amount, copy.timestamp, copy.ledger), (12, 34, 56));
    let legacy = LegacyReceiptMetadata {
        from: from.clone(),
        to: to.clone(),
        amount: 12,
        timestamp: 34,
        memo: f.name("rent"),
        ledger: 56,
    };
    let copy = legacy.clone();
    assert!(copy.from == from && copy.to == to && copy.memo == legacy.memo);
    assert_eq!((copy.amount, copy.timestamp, copy.ledger), (12, 34, 56));
}

// Escrows.

#[test]
fn escrow_is_settled_once_and_at_its_time() {
    let f = Fixture::new();
    let (token, from, to) = (f.address(), f.address(), f.address());
    let created = f.run(|env| {
        MicroPayContract::create_escrow_at(
            env,
            token.clone(),
            from.clone(),
            to.clone(),
            900,
            20,
            10,
        )
    });
    assert_eq!(created.signer, Some(from.clone()));
    assert_eq!(transfers(&created), vec![(token.clone(), Some(from.clone()), None, 900)]);
    assert_eq!(event_names(&created), vec!["escrow_create"]);
    assert!(matches!(created.actions[0], Action::Transfer { .. }));
    assert_eq!(value_of(created), 0);

    let early = f.run(|env| MicroPayContract::claim_escrow_at(env, 0, 19));
    assert_eq!(early.signer, None);
    assert_eq!(error_of(early), ContractError::EscrowClaimTooEarly);
    let late = f.run(|env| MicroPayContract::cancel_escrow_at(env, 0, 20));
    assert_eq!(late.signer, None);
    assert_eq!(error_of(late), ContractError::EscrowCancelTooLate);

    let claimed = f.run(|env| MicroPayContract::claim_escrow_at(env, 0, 20));
    assert_eq!(claimed.signer, Some(to.clone()));
    assert_eq!(transfers(&claimed), vec![(token.clone(), None, Some(to.clone()), 900)]);
    assert_eq!(event_names(&claimed), vec!["escrow_claim"]);
    assert!(matches!(claimed.actions[0], Action::Publish { .. }));
    for now in [0, 19, 20, 21] {
        let again = f.run(|env| MicroPayContract::claim_escrow_at(env, 0, now));
        assert_eq!(again.signer, None);
        assert_eq!(trap_of(again), Trap::EscrowNotPending);
        let back = f.run(|env| MicroPayContract::cancel_escrow_at(env, 0, now));
        assert_eq!(trap_of(back), Trap::EscrowNotPending);
    }
    let escrow: Escrow = f.run(|env| MicroPayContract::get_escrow(env, 0)).unwrap();
    assert_eq!(escrow.id, 0);
    assert_eq!(escrow.from, from);
    assert_eq!(escrow.to, to);
    assert_eq!(escrow.token, token);
    assert_eq!((escrow.amount, escrow.release_ledger), (900, 20));
    assert_eq!(escrow.status, EscrowStatus::Released);
}

#[test]
fn cancelled_escrow_goes_back() {
    let f = Fixture::new();
    let (from, to) = (f.address(), f.address());
    let id = f.escrow(&from, &to, 900, 20, 10);
    let token = f.run(|env| MicroPayContract::get_escrow(env, id)).unwrap().token;
    let cancelled = f.run(|env| MicroPayContract::cancel_escrow_at(env, id, 19));
    assert_eq!(cancelled.signer, Some(from.clone()));
    assert_eq!(transfers(&cancelled), vec![(token, None, Some(from.clone()), 900)]);
    assert_eq!(event_names(&cancelled), vec!["escrow_cancel"]);
    let status = f.run(|env| MicroPayContract::get_escrow(env, id)).unwrap().status;
    assert_eq!(status, EscrowStatus::Cancelled);
}

#[test]
fn escrows_that_are_refused() {
    let f = Fixture::new();
    let (token, from, to) = (f.address(), f.address(), f.address());
    let create = |amount: i128, release: u32, now: u32| {
        f.run(|env| {
            MicroPayContract::create_escrow_at(
                env,
                token.clone(),
                from.clone(),
                to.clone(),
                amount,
                release,
                now,
            )
        })
    };
    assert_eq!(trap_of(create(0, 1, 5)), Trap::AmountNotPositive);
    assert_eq!(trap_of(create(1, 5, 5)), Trap::ReleaseNotInFuture);
    assert_eq!(value_of(create(1, 6, 5)), 0);
    let missing = f.run(|env| MicroPayContract::claim_escrow_at(env, 1, 5));
    assert_eq!(trap_of(missing), Trap::EscrowNotFound);
    let missing = f.run(|env| MicroPayContract::cancel_escrow_at(env, 1, 5));
    assert_eq!(trap_of(missing), Trap::EscrowNotFound);
    let missing = f.run(|env| MicroPayContract::get_escrow(env, 1));
    assert_eq!(missing.unwrap_err(), Trap::EscrowNotFound);
    f.run(|env| env.storage().persistent().set(&(f.name("EscrowCount"),), &u32::MAX));
    assert_eq!(trap_of(create(1, 6, 5)), Trap::AddOverflow);
}

#[test]
fn pages_cover_a_list() {
    let f = Fixture::new();
    let (a, b) = (f.address(), f.address());
    for i in 0..60u32 {
        if i % 6 == 5 {
            f.escrow(&b, &a, 1, 9, 1);
        } else {
            f.escrow(&a, &b, 1, 9, 1);
        }
    }
    let ids: Vec<u32> = (0..60u32).filter(|i| i % 6 != 5).collect();
    assert_eq!(ids.len(), 50);
    f.escrow(&a, &b, 1, 9, 1);
    assert_eq!(f.page(&a, 0, 0), ids);
    assert_eq!(f.page(&a, 0, 51), ids);
    assert_eq!(f.page(&a, 50, 0), vec![60]);
    assert_eq!(f.page(&a, 51, 1), Vec::<u32>::new());
    assert_eq!(f.page(&a, u32::MAX, 50), Vec::<u32>::new());
    let mut joined = f.page(&a, 10, 7);
    joined.extend(f.page(&a, 17, 7));
    assert_eq!(joined, ids[10..24].to_vec());
    assert_eq!(f.page(&b, 0, 3), vec![5, 11, 17]);
    let key = (f.name("EscrowSenderIndex"), a.clone(), 3u32);
    f.run(|env| env.storage().persistent().remove(&key));
    let broken = f.run(|env| {
        MicroPayContract::list_escrow_ids_for_sender(env, a.clone(), 0, 4)
    });
    assert_eq!(broken.unwrap_err(), Trap::EscrowIndexMissing);
    assert_eq!(f.page(&a, 0, 3), vec![0, 1, 2]);
}

// Streams.

#[test]
fn streams_that_are_refused() {
    let f = Fixture::new();
    let (a, b) = (f.address(), f.address());
    let (x, y) = ([a.clone()], [a.clone(), b.clone()]);
    assert_eq!(f.refused(&x, &[1, 1], 0, 0), Trap::UnequalRecipientsAndWeights);
    assert_eq!(f.refused(&[], &[], 0, 0), Trap::NoRecipients);
    assert_eq!(f.refused(&y, &[1, 0], 0, 0), Trap::WeightNotPositive);
    let twice = [a.clone(), b.clone(), a.clone()];
    assert_eq!(f.refused(&twice, &[1, 1, 1], 0, 0), Trap::DuplicateRecipient);
    assert_eq!(f.refused(&y, &[1, 1], 0, 0), Trap::RateNotPositive);
    assert_eq!(f.refused(&y, &[1, 1], 1, 0), Trap::DepositNotPositive);
    assert_eq!(f.refused(&y, &[1, 1], 1, 9_999), Trap::DepositBelowMinimum);
    assert_eq!(f.refused(&y, &[1, 1], 167, 10_000), Trap::DurationBelowMinimum);
    assert_eq!(f.open(&y, &[1, 1], 166, 10_000, 7), 0);
    f.run(|env| env.storage().persistent().set(&(f.name("StreamCount"),), &u32::MAX));
    assert_eq!(f.refused(&y, &[1, 1], 166, 10_000), Trap::AddOverflow);
}

#[test]
fn stream_with_lists_of_another_type_is_refused() {
    let f = Fixture::new();
    let (token, payer, a) = (f.address(), f.address(), f.address());
    let tos = soroban_sdk::Vec::<Address>::try_from_val(&f.env, &f.texts()).unwrap();
    let parts = f.numbers(&[1]);
    let answer = f.run(|env| {
        MicroPayContract::open_stream_at(
            env,
            token.clone(),
            payer.clone(),
            tos,
            parts,
            100,
            100_000,
            1,
        )
    });
    assert_eq!(trap_of(answer), Trap::MalformedArgument);
    let tos = f.addresses(&[a]);
    let parts = soroban_sdk::Vec::<u32>::try_from_val(&f.env, &f.texts()).unwrap();
    let answer = f.run(|env| {
        MicroPayContract::open_stream_at(
            env,
            token.clone(),
            payer.clone(),
            tos,
            parts,
            100,
            100_000,
            1,
        )
    });
    assert_eq!(trap_of(answer), Trap::MalformedArgument);
}

#[test]
fn open_asks_for_the_deposit() {
    let f = Fixture::new();
    let (token, payer, a) = (f.address(), f.address(), f.address());
    let tos = f.addresses(&[a.clone()]);
    let parts = f.numbers(&[4]);
    let answer = f.run(|env| {
        MicroPayContract::open_stream_at(
            env,
            token.clone(),
            payer.clone(),
            tos,
            parts,
            100,
            100_000,
            8,
        )
    });
    assert_eq!(answer.signer, Some(payer.clone()));
    assert_eq!(transfers(&answer), vec![(token.clone(), Some(payer.clone()), None, 100_000)]);
    assert_eq!(event_names(&answer), vec!["stream_open"]);
    assert_eq!(value_of(answer), 0);
    assert_eq!(f.run(|env| MicroPayContract::get_stream_count(env)), Ok(1));
    let stream = f.stream(0);
    assert_eq!(stream.token, token);
    assert_eq!(stream.start_ledger, 8);
    assert_eq!((stream.recipients[0].weight, stream.recipients[0].claimed), (4, 0));
}

#[test]
fn claims_pay_by_weight_and_once() {
    let f = Fixture::new();
    let (a, b) = (f.address(), f.address());
    let id = f.open(&[a.clone(), b.clone()], &[1, 2], 100, 100_000, 50);
    assert_eq!(f.claimable(id, &a, 60), Ok(333));
    assert_eq!(f.claimable(id, &b, 60), Ok(666));
    let token = f.stream(id).token;
    let claimed = f.claim(id, &a, 60);
    assert_eq!(claimed.signer, Some(a.clone()));
    assert_eq!(transfers(&claimed), vec![(token, None, Some(a.clone()), 333)]);
    assert_eq!(event_names(&claimed), vec!["stream_claim"]);
    assert_eq!(value_of(claimed), 333);
    let again = f.claim(id, &a, 60);
    assert!(again.actions.is_empty());
    assert_eq!(value_of(again), 0);
    assert_eq!(f.claimable(id, &b, 60), Ok(666));
    assert_eq!(f.claimable(id, &a, 62), Ok(67));
    assert_eq!(f.claimable(id, &f.address(), 62), Ok(0));
    assert_eq!(trap_of(f.claim(id, &f.address(), 62)), Trap::NotStreamParty);
    assert_eq!(trap_of(f.claim(9, &a, 62)), Trap::StreamNotFound);
    assert_eq!(f.claimable(9, &a, 62), Err(Trap::StreamNotFound));
}

#[test]
fn top_up_extends_the_run() {
    let f = Fixture::new();
    let (payer, a) = (f.address(), f.address());
    let id = f.open_for(&payer, &[a.clone()], &[1], 100, 100_050, 0);
    let top_up = |who: &Address, amount: i128, now: u32| {
        f.run(|env| MicroPayContract::top_up_stream_at(env, id, who.clone(), amount, now))
    };
    assert_eq!(trap_of(top_up(&a, 1, 5)), Trap::NotStreamParty);
    assert_eq!(trap_of(top_up(&payer, 0, 5)), Trap::AmountNotPositive);
    assert_eq!(trap_of(top_up(&payer, i128::MAX, 5)), Trap::AddOverflow);
    assert_eq!(f.claimable(id, &a, 1_000), Ok(100_000));
    let token = f.stream(id).token;
    let answer = top_up(&payer, 50, 10);
    assert_eq!(answer.signer, Some(payer.clone()));
    assert_eq!(transfers(&answer), vec![(token, Some(payer.clone()), None, 50)]);
    assert_eq!(event_names(&answer), vec!["stream_topup"]);
    assert_eq!(f.stream(id).deposited, 100_100);
    assert_eq!(f.claimable(id, &a, 1_000), Ok(100_000));
    assert_eq!(f.claimable(id, &a, 1_001), Ok(100_100));
    assert_eq!(f.claimable(id, &a, 2_000), Ok(100_100));
    // The deposit ran out before: the top-up does not pay for those ledgers.
    value_of(top_up(&payer, 300, 2_000));
    assert_eq!(f.stream(id).deposited, 100_400);
    assert_eq!(f.claimable(id, &a, 2_000), Ok(100_100));
    assert_eq!(f.claimable(id, &a, 2_001), Ok(100_200));
    assert_eq!(f.claimable(id, &a, 2_003), Ok(100_400));
    assert_eq!(f.claimable(id, &a, 2_004), Ok(100_400));
}

#[test]
fn top_up_after_running_dry_pays_nothing_at_once() {
    let f = Fixture::new();
    let (payer, a, b) = (f.address(), f.address(), f.address());
    let start: u32 = 40;
    let id = f.open_for(&payer, &[a.clone(), b.clone()], &[3, 1], 100, 100_000, start);
    let now = start + 1_500;
    assert_eq!(f.claimable(id, &a, now), Ok(75_000));
    assert_eq!(f.claimable(id, &b, now), Ok(25_000));
    assert_eq!(dry_ledgers(&f.stream(id), start + 1_000), 0);
    assert_eq!(dry_ledgers(&f.stream(id), now), 500);
    let more = |now| {
        f.run(|env| {
            MicroPayContract::top_up_stream_at(env, id, payer.clone(), 100_000, now)
        })
    };
    value_of(more(now));
    assert_eq!(f.stream(id).paused_ledgers, 500);
    assert_eq!(f.claimable(id, &a, now), Ok(75_000));
    assert_eq!(f.claimable(id, &b, now), Ok(25_000));
    assert_eq!(f.claimable(id, &a, now + 10), Ok(75_750));
    assert_eq!(f.claimable(id, &a, now + 1_000), Ok(150_000));
    assert_eq!(f.claimable(id, &a, now + 1_001), Ok(150_000));
    // A stream that is paused is topped up as it stands.
    value_of(f.run(|env| {
        MicroPayContract::pause_stream_at(env, id, payer.clone(), now + 1_100)
    }));
    value_of(more(now + 1_200));
    assert_eq!(f.stream(id).paused_ledgers, 600);
    assert_eq!(f.claimable(id, &b, now + 1_300), Ok(50_000));
    value_of(f.run(|env| {
        MicroPayContract::resume_stream_at(env, id, payer.clone(), now + 1_300)
    }));
    assert_eq!(f.claimable(id, &b, now + 1_300), Ok(50_000));
    assert_eq!(f.claimable(id, &b, now + 1_304), Ok(50_100));
}

#[test]
fn pauses_only_shift_accrual() {
    let f = Fixture::new();
    let (payer, a) = (f.address(), f.address());
    let id = f.open_for(&payer, &[a.clone()], &[1], 100, 100_000, 10);
    let pause = |who: &Address, now: u32| {
        f.run(|env| MicroPayContract::pause_stream_at(env, id, who.clone(), now))
    };
    let resume = |who: &Address, now: u32| {
        f.run(|env| MicroPayContract::resume_stream_at(env, id, who.clone(), now))
    };
    assert_eq!(trap_of(resume(&payer, 12)), Trap::StreamNotPaused);
    assert_eq!(trap_of(pause(&a, 12)), Trap::NotStreamParty);
    let paused = pause(&payer, 20);
    assert_eq!(paused.signer, Some(payer.clone()));
    assert_eq!(event_names(&paused), vec!["stream_pause"]);
    assert!(transfers(&paused).is_empty());
    assert_eq!(trap_of(pause(&payer, 21)), Trap::StreamAlreadyPaused);
    assert_eq!(trap_of(resume(&a, 21)), Trap::NotStreamParty);
    for now in [20, 50, 5_000] {
        assert_eq!(f.claimable(id, &a, now), Ok(1_000));
    }
    let resumed = resume(&payer, 70);
    assert_eq!(event_names(&resumed), vec!["stream_resume"]);
    assert!(matches!(
        resumed.actions[0],
        Action::Publish { event: Event::StreamResume { pause_length: 50, .. }, .. }
    ));
    assert_eq!(f.claimable(id, &a, 70), Ok(1_000));
    assert_eq!(f.claimable(id, &a, 75), Ok(1_500));
    let stream = f.stream(id);
    assert_eq!((stream.paused, stream.paused_at_ledger, stream.paused_ledgers), (false, 0, 50));
}

#[test]
fn close_pays_everybody_and_empties_the_stream() {
    let f = Fixture::new();
    let (payer, a, b) = (f.address(), f.address(), f.address());
    let id = f.open_for(&payer, &[a.clone(), b.clone()], &[1, 2], 100, 100_000, 0);
    value_of(f.claim(id, &b, 10));
    let token = f.stream(id).token;
    let close = |who: &Address, now: u32| {
        f.run(|env| MicroPayContract::close_stream_at(env, id, who.clone(), now))
    };
    assert_eq!(trap_of(close(&a, 20)), Trap::NotStreamParty);
    let closed = close(&payer, 20);
    assert_eq!(closed.signer, Some(payer.clone()));
    assert_eq!(
        transfers(&closed),
        vec![
            (token.clone(), None, Some(a.clone()), 666),
            (token.clone(), None, Some(b.clone()), 667),
            (token.clone(), None, Some(payer.clone()), 98_001),
        ]
    );
    assert!(matches!(
        closed.actions[3],
        Action::Publish { event: Event::StreamClose { owed: 1_333, refund: 98_001, .. }, .. }
    ));
    let stream = f.stream(id);
    assert!(stream.closed);
    assert_eq!(total_claimed(&stream.recipients), Ok(1_999));
    assert_eq!(666 + 666 + 667 + 98_001, 100_000);
    assert_eq!(f.claimable(id, &a, 500), Ok(0));
    assert_eq!(trap_of(close(&payer, 21)), Trap::StreamClosed);
    assert_eq!(trap_of(f.claim(id, &a, 21)), Trap::StreamClosed);
    let more = f.run(|env| MicroPayContract::top_up_stream(env, id, payer.clone(), 5));
    assert_eq!(trap_of(more), Trap::StreamClosed);
    let pause = f.run(|env| MicroPayContract::pause_stream_at(env, id, payer.clone(), 22));
    assert_eq!(trap_of(pause), Trap::StreamClosed);
    let resume = f.run(|env| MicroPayContract::resume_stream_at(env, id, payer.clone(), 22));
    assert_eq!(trap_of(resume), Trap::StreamClosed);
}

#[test]
fn drained_stream_leaves_no_refund() {
    let f = Fixture::new();
    let (payer, a) = (f.address(), f.address());
    let id = f.open_for(&payer, &[a.clone()], &[1], 100, 100_000, 0);
    let closed = f.run(|env| MicroPayContract::close_stream_at(env, id, payer.clone(), 5_000));
    assert_eq!(transfers(&closed).len(), 1);
    assert_eq!(transfers(&closed)[0].3, 100_000);
    assert!(matches!(
        closed.actions[1],
        Action::Publish { event: Event::StreamClose { owed: 100_000, refund: 0, .. }, .. }
    ));
}

#[test]
fn large_deposits_trap_in_the_product() {
    let f = Fixture::new();
    let (payer, a, b) = (f.address(), f.address(), f.address());
    let rate = i128::MAX / 60;
    let id = f.open_for(&payer, &[a.clone(), b.clone()], &[1, 2], rate, i128::MAX, 0);
    assert_eq!(f.claimable(id, &a, 60), Ok(rate * 60 / 3));
    assert_eq!(f.claimable(id, &b, 60), Err(Trap::MultiplyOverflow));
    assert_eq!(trap_of(f.claim(id, &b, 60)), Trap::MultiplyOverflow);
    let closed = f.run(|env| MicroPayContract::close_stream_at(env, id, payer.clone(), 60));
    assert_eq!(trap_of(closed), Trap::MultiplyOverflow);
}

#[test]
fn weights_are_measured_against_their_sum() {
    let f = Fixture::new();
    let (a, b) = (f.address(), f.address());
    let shares = vec![share(&a, u32::MAX, 0), share(&b, u32::MAX, 0)];
    assert_eq!(total_weight(&shares), 8_589_934_590);
    let mut stream = plain_stream(&f, shares);
    stream.rate_per_ledger = 100;
    stream.deposited = 100_000;
    stream.start_ledger = 0;
    assert_eq!(claimable_amount(&stream, &a, 10), Ok(500));
    let payer = f.address();
    let both = [a.clone(), b.clone()];
    let id = f.open_for(&payer, &both, &[u32::MAX, u32::MAX], 100, 100_000, 0);
    assert_eq!(f.claimable(id, &a, 10), Ok(500));
    assert_eq!(f.claimable(id, &b, 10), Ok(500));
    let end = f.run(|env| MicroPayContract::close_stream_at(env, id, payer.clone(), 10));
    let paid: Vec<i128> = transfers(&end).iter().map(|moved| moved.3).collect();
    assert_eq!(paid, vec![500, 500, 99_000]);
}

// Accrual.

#[test]
fn recipients_are_found_in_order() {
    let f = Fixture::new();
    let (a, b, c) = (f.address(), f.address(), f.address());
    let shares = vec![share(&a, 1, 5), share(&b, 2, 6), share(&a, 3, 7)];
    assert_eq!(find_recipient(&shares, &a), Some(0));
    assert_eq!(find_recipient(&shares, &b), Some(1));
    assert_eq!(find_recipient(&shares, &c), None);
    assert_eq!(total_weight(&shares), 6);
    assert_eq!(total_claimed(&shares), Ok(18));
    let large = vec![share(&a, 1, i128::MAX), share(&b, 1, 1)];
    assert_eq!(total_claimed(&large), Err(Trap::AddOverflow));
}

#[test]
fn ledgers_of_a_stream() {
    let f = Fixture::new();
    let a = f.address();
    let mut stream = plain_stream(&f, vec![share(&a, 1, 0)]);
    assert_eq!(effective_elapsed_ledgers(&stream, 40), 0);
    assert_eq!(effective_elapsed_ledgers(&stream, 57), 7);
    stream.paused_ledgers = 3;
    assert_eq!(paused_ledgers_total(&stream, 57), 3);
    assert_eq!(effective_elapsed_ledgers(&stream, 57), 4);
    stream.paused = true;
    stream.paused_at_ledger = 55;
    assert_eq!(paused_ledgers_total(&stream, 57), 5);
    assert_eq!(paused_ledgers_total(&stream, 54), 3);
    assert_eq!(effective_elapsed_ledgers(&stream, 57), 2);
    assert_eq!(effective_elapsed_ledgers(&stream, 570), 2);
    stream.paused_ledgers = u32::MAX;
    assert_eq!(paused_ledgers_total(&stream, 57), u32::MAX);
}

#[test]
fn amounts_of_a_stream() {
    let f = Fixture::new();
    let (a, b) = (f.address(), f.address());
    let mut stream = plain_stream(&f, vec![share(&a, 1, 0), share(&b, 3, 200)]);
    assert_eq!(total_streamed_amount(&stream, 53), Ok(300));
    assert_eq!(total_streamed_amount(&stream, 5_000), Ok(100_000));
    assert_eq!(claimable_amount(&stream, &a, 53), Ok(75));
    assert_eq!(claimable_amount(&stream, &b, 53), Ok(25));
    assert_eq!(claimable_amount(&stream, &b, 52), Ok(0));
    stream.rate_per_ledger = 0;
    assert_eq!(total_streamed_amount(&stream, 53), Err(Trap::DivideByZero));
    stream.rate_per_ledger = -1;
    stream.deposited = i128::MIN;
    assert_eq!(total_streamed_amount(&stream, 53), Err(Trap::DivideOverflow));
    stream.closed = true;
    assert_eq!(claimable_amount(&stream, &a, 53), Ok(0));
}

#[test]
fn subtraction_out_of_range_traps() {
    let f = Fixture::new();
    let a = f.address();
    let stream = plain_stream(&f, vec![share(&a, 1, i128::MIN)]);
    assert_eq!(claimable_amount(&stream, &a, 53), Err(Trap::SubtractOverflow));
}

// Several calls together.

#[test]
fn order_of_claims_does_not_matter() {
    let f = Fixture::new();
    let (a, b) = (f.address(), f.address());
    let one = f.open(&[a.clone(), b.clone()], &[3, 4], 101, 100_000, 0);
    let two = f.open(&[a.clone(), b.clone()], &[3, 4], 101, 100_000, 0);
    let first = (value_of(f.claim(one, &a, 13)), value_of(f.claim(one, &b, 13)));
    let second = (value_of(f.claim(two, &b, 13)), value_of(f.claim(two, &a, 13)));
    assert_eq!(first, (562, 750));
    assert_eq!(second, (750, 562));
    for i in 0..2 {
        let (x, y) = (f.stream(one), f.stream(two));
        assert_eq!(x.recipients[i].claimed, y.recipients[i].claimed);
    }
}

#[test]
fn many_claims_pay_like_one() {
    let f = Fixture::new();
    let (a, b) = (f.address(), f.address());
    let often = f.open(&[a.clone(), b.clone()], &[3, 4], 100, 100_000, 0);
    let once = f.open(&[a.clone(), b.clone()], &[3, 4], 100, 100_000, 0);
    let mut paid = 0;
    for now in [1, 2, 2, 3, 40, 41, 555, 2_000] {
        paid += value_of(f.claim(often, &a, now));
        let claimed = f.stream(often).recipients[0].claimed;
        assert_eq!(claimed, i128::from(now.min(1_000)) * 100 * 3 / 7);
        assert_eq!(claimed, paid);
    }
    assert_eq!(value_of(f.claim(once, &a, 2_000)), paid);
    assert_eq!(paid, 42_857);
}

#[test]
fn closing_settles_each_to_its_part() {
    let f = Fixture::new();
    let (payer, a, b) = (f.address(), f.address(), f.address());
    let id = f.open_for(&payer, &[a.clone(), b.clone()], &[3, 4], 100, 100_000, 0);
    assert_eq!(value_of(f.claim(id, &a, 5)), 214);
    value_of(f.run(|env| MicroPayContract::close_stream_at(env, id, payer.clone(), 10)));
    let shares = f.stream(id).recipients;
    assert_eq!((shares[0].claimed, shares[1].claimed), (428, 571));
}

#[test]
fn pausing_and_resuming_at_once_changes_nothing() {
    let f = Fixture::new();
    let (payer, a) = (f.address(), f.address());
    let id = f.open_for(&payer, &[a.clone()], &[1], 100, 100_000, 10);
    let record = || {
        f.run(|env| {
            let key = (f.name("Stream"), id);
            env.storage().persistent().get::<_, soroban_sdk::Map<Symbol, Val>>(&key).unwrap()
        })
    };
    let before = record();
    value_of(f.run(|env| MicroPayContract::pause_stream_at(env, id, payer.clone(), 25)));
    assert_eq!(f.stream(id).paused_at_ledger, 25);
    value_of(f.run(|env| MicroPayContract::resume_stream_at(env, id, payer.clone(), 25)));
    assert_eq!(f.stream(id).paused_at_ledger, 0);
    assert!(record() == before);
}

#[test]
fn accrual_never_shrinks() {
    let f = Fixture::new();
    let a = f.address();
    let mut stream = plain_stream(&f, vec![share(&a, 1, 0)]);
    stream.paused = true;
    stream.paused_at_ledger = 300;
    let mut last: i128 = 0;
    for now in [0, 49, 50, 51, 299, 300, 301, 5_000, u32::MAX] {
        let total = total_streamed_amount(&stream, now).unwrap();
        assert!(last <= total);
        last = total;
    }
    assert_eq!(last, 25_000);
}

#[test]
fn opened_stream_runs_for_the_minimum() {
    let f = Fixture::new();
    let a = f.address();
    let id = f.open(&[a.clone()], &[1], 166, 10_000, 5);
    assert_eq!(f.claimable(id, &a, 5), Ok(0));
    assert_eq!(f.claimable(id, &a, 6), Ok(166));
    assert_eq!(f.claimable(id, &a, 65), Ok(9_960));
    assert_eq!(f.claimable(id, &a, 66), Ok(9_960));
}

#[test]
fn calls_leave_other_records_alone() {
    let f = Fixture::new();
    let (token, a, b) = (f.address(), f.address(), f.address());
    f.run(|env| value_of(MicroPayContract::initialize(env, a.clone())));
    let stream = f.open(&[a.clone(), b.clone()], &[1, 1], 100, 100_000, 0);
    let escrow = f.escrow(&a, &b, 10, 9, 1);
    let memo = String::from_str(&f.env, "memo");
    f.run(|env| {
        value_of(MicroPayContract::send_tip_at(env, token, a.clone(), b.clone(), 4, 2));
        let receipt = ReceiptMetadata {
            from: a.clone(),
            to: b.clone(),
            amount: 7,
            timestamp: 1,
            memo,
            ledger: 2,
        };
        assert_eq!(value_of(MicroPayContract::mint_receipt_as(env, receipt)), 0);
    });
    value_of(f.claim(stream, &a, 20));
    value_of(f.run(|env| MicroPayContract::claim_escrow_at(env, escrow, 20)));
    f.run(|env| {
        assert_eq!(MicroPayContract::get_admin(env), Ok(a.clone()));
        assert_eq!(MicroPayContract::get_tip_total(env, b.clone()), Ok(4));
        assert_eq!(MicroPayContract::get_tip_total(env, a.clone()), Ok(0));
        let receipt = MicroPayContract::get_receipt(env, a.clone(), 0).unwrap();
        assert_eq!((receipt.amount, receipt.timestamp, receipt.ledger), (7, 1, 2));
        assert_eq!(MicroPayContract::get_receipt_count(env, b.clone()), Ok(0));
        assert_eq!(MicroPayContract::get_stream_count(env), Ok(1));
        assert_eq!(MicroPayContract::get_escrow_count(env), Ok(1));
        assert_eq!(MicroPayContract::get_schema_version(env), Ok(4));
    });
    let after = f.stream(stream);
    assert_eq!(after.recipients[0].claimed, 1_000);
    assert_eq!(after.recipients[1].claimed, 0);
    assert_eq!((after.rate_per_ledger, after.deposited, after.start_ledger), (100, 100_000, 0));
}

#[test]
fn earlier_receipts_never_change() {
    let f = Fixture::new();
    let (a, b) = (f.address(), f.address());
    let memo = |text: &str| String::from_str(&f.env, text);
    for (index, text) in ["one", "two", "three"].iter().enumerate() {
        let id = f.run(|env| {
            MicroPayContract::mint_receipt(env, a.clone(), b.clone(), 5, memo(text))
        });
        assert_eq!(value_of(id), index as u32);
    }
    for (index, text) in ["one", "two", "three"].iter().enumerate() {
        let receipt = f.run(|env| MicroPayContract::get_receipt(env, a.clone(), index as u32));
        assert_eq!(receipt.unwrap().memo, memo(text));
    }
}
