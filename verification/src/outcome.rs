//! What a call to the contract comes to: a result, the signature it needs, and
//! the token transfers and events that go with it.
use soroban_sdk::{Address, Env, Val};
use vstd::prelude::*;

use crate::sdk::{account_value, address_items, address_list_value, amount_value, datum,
    is_symbol_text, list_value, name_value, number_items, number_list_value, number_value, symbol,
    Datum};
use crate::storage::Storage;
use crate::types::{ContractError, EVENT_SCHEMA_VERSION};

verus! {

/// Why the contract stops an invocation.
///
/// The host then undoes all that the invocation did, so what the contract has
/// written to its storage by then does not last.
#[derive(Copy, Clone, Debug, PartialEq, Eq, Structural)]
pub enum Trap {
    NotInitialized,
    NotAdmin,
    TipAmountNotPositive,
    TipRecordNotFound,
    ReceiptAmountNotPositive,
    ReceiptNotFound,
    LegacyReceiptNotFound,
    AmountNotPositive,
    ReleaseNotInFuture,
    EscrowNotFound,
    EscrowNotPending,
    EscrowIndexMissing,
    EscrowMissingInBackfill,
    UnequalArrays,
    UnequalRecipientsAndWeights,
    NoRecipients,
    WeightNotPositive,
    DuplicateRecipient,
    RateNotPositive,
    DepositNotPositive,
    DepositBelowMinimum,
    DurationBelowMinimum,
    StreamNotFound,
    NotStreamParty,
    StreamClosed,
    StreamAlreadyPaused,
    StreamNotPaused,
    /// A stored value is not of the type that its key calls for.
    MalformedEntry,
    /// An item of a list argument is not of the list's type.
    MalformedArgument,
    AddOverflow,
    SubtractOverflow,
    MultiplyOverflow,
    DivideByZero,
    DivideOverflow,
}

impl Trap {
    /// The words that the invocation ends with.
    pub open spec fn text(self) -> Seq<char> {
        match self {
            Trap::NotInitialized => "Contract not initialized"@,
            Trap::NotAdmin => "Unauthorized"@,
            Trap::TipAmountNotPositive => "Tip amount must be positive"@,
            Trap::TipRecordNotFound => "Tip record not found"@,
            Trap::ReceiptAmountNotPositive => "Receipt amount must be positive"@,
            Trap::ReceiptNotFound => "Receipt not found"@,
            Trap::LegacyReceiptNotFound => "Legacy receipt not found"@,
            Trap::AmountNotPositive => "amount must be positive"@,
            Trap::ReleaseNotInFuture => "release_ledger must be in the future"@,
            Trap::EscrowNotFound => "escrow not found"@,
            Trap::EscrowNotPending => "escrow is not pending"@,
            Trap::EscrowIndexMissing => "escrow index entry missing"@,
            Trap::EscrowMissingInBackfill => "escrow missing during index backfill"@,
            Trap::UnequalArrays => "arrays must have equal length"@,
            Trap::UnequalRecipientsAndWeights => "recipients and weights must have equal length"@,
            Trap::NoRecipients => "at least one recipient is required"@,
            Trap::WeightNotPositive => "weight must be positive"@,
            Trap::DuplicateRecipient => "recipients must not contain duplicate addresses"@,
            Trap::RateNotPositive => "rate_per_ledger must be positive"@,
            Trap::DepositNotPositive => "deposit must be positive"@,
            Trap::DepositBelowMinimum => "deposit below minimum"@,
            Trap::DurationBelowMinimum => "stream duration below minimum"@,
            Trap::StreamNotFound => "stream not found"@,
            Trap::NotStreamParty => "unauthorized"@,
            Trap::StreamClosed => "stream is closed"@,
            Trap::StreamAlreadyPaused => "stream already paused"@,
            Trap::StreamNotPaused => "stream is not paused"@,
            Trap::MalformedEntry => "stored value has another type"@,
            Trap::MalformedArgument => "list item has another type"@,
            Trap::AddOverflow => "attempt to add with overflow"@,
            Trap::SubtractOverflow => "attempt to subtract with overflow"@,
            Trap::MultiplyOverflow => "attempt to multiply with overflow"@,
            Trap::DivideByZero => "attempt to divide by zero"@,
            Trap::DivideOverflow => "attempt to divide with overflow"@,
        }
    }

    /// The words that the invocation ends with.
    pub fn message(self) -> (r: &'static str)
        ensures
            r@ == self.text(),
    {
        match self {
            Trap::NotInitialized => "Contract not initialized",
            Trap::NotAdmin => "Unauthorized",
            Trap::TipAmountNotPositive => "Tip amount must be positive",
            Trap::TipRecordNotFound => "Tip record not found",
            Trap::ReceiptAmountNotPositive => "Receipt amount must be positive",
            Trap::ReceiptNotFound => "Receipt not found",
            Trap::LegacyReceiptNotFound => "Legacy receipt not found",
            Trap::AmountNotPositive => "amount must be positive",
            Trap::ReleaseNotInFuture => "release_ledger must be in the future",
            Trap::EscrowNotFound => "escrow not found",
            Trap::EscrowNotPending => "escrow is not pending",
            Trap::EscrowIndexMissing => "escrow index entry missing",
            Trap::EscrowMissingInBackfill => "escrow missing during index backfill",
            Trap::UnequalArrays => "arrays must have equal length",
            Trap::UnequalRecipientsAndWeights => "recipients and weights must have equal length",
            Trap::NoRecipients => "at least one recipient is required",
            Trap::WeightNotPositive => "weight must be positive",
            Trap::DuplicateRecipient => "recipients must not contain duplicate addresses",
            Trap::RateNotPositive => "rate_per_ledger must be positive",
            Trap::DepositNotPositive => "deposit must be positive",
            Trap::DepositBelowMinimum => "deposit below minimum",
            Trap::DurationBelowMinimum => "stream duration below minimum",
            Trap::StreamNotFound => "stream not found",
            Trap::NotStreamParty => "unauthorized",
            Trap::StreamClosed => "stream is closed",
            Trap::StreamAlreadyPaused => "stream already paused",
            Trap::StreamNotPaused => "stream is not paused",
            Trap::MalformedEntry => "stored value has another type",
            Trap::MalformedArgument => "list item has another type",
            Trap::AddOverflow => "attempt to add with overflow",
            Trap::SubtractOverflow => "attempt to subtract with overflow",
            Trap::MultiplyOverflow => "attempt to multiply with overflow",
            Trap::DivideByZero => "attempt to divide by zero",
            Trap::DivideOverflow => "attempt to divide with overflow",
        }
    }
}

/// Why a call came to nothing.
#[derive(Copy, Clone, Debug, PartialEq, Eq, Structural)]
pub enum Failure {
    /// The contract answers with an error.
    Error(ContractError),
    /// The contract stops the invocation.
    Trap(Trap),
}

/// One end of a token transfer.
pub enum Party {
    /// The contract itself.
    Contract,
    Account(Address),
}

/// Something that happened, for those who watch the contract from outside.
pub enum Event {
    /// The contract was initialized.
    Init { admin: Address },
    /// A tip was sent.
    Tip { from: Address, to: Address, amount: i128 },
    /// A receipt was minted.
    Receipt { from: Address, index: u32 },
    /// An escrow was created.
    EscrowCreate { id: u32, from: Address, to: Address, amount: i128, release_ledger: u32 },
    /// An escrow was paid out to its recipient.
    EscrowClaim { id: u32, to: Address, amount: i128 },
    /// An escrow was paid back to its creator.
    EscrowCancel { id: u32, from: Address, amount: i128 },
    /// A stream was opened.
    StreamOpen {
        id: u32,
        payer: Address,
        recipients: soroban_sdk::Vec<Address>,
        weights: soroban_sdk::Vec<u32>,
        rate_per_ledger: i128,
        deposit: i128,
    },
    /// A recipient withdrew from a stream.
    StreamClaim { id: u32, recipient: Address, amount: i128 },
    /// Funds were added to a stream.
    StreamTopUp { id: u32, payer: Address, amount: i128, deposited: i128 },
    /// A stream was paused.
    StreamPause { id: u32, payer: Address, paused_at_ledger: u32 },
    /// A stream was resumed.
    StreamResume { id: u32, payer: Address, pause_length: u32 },
    /// A stream was settled and closed.
    StreamClose { id: u32, owed: i128, refund: i128 },
    /// The storage layout was brought up to date.
    Migrate { from_version: u32, to_version: u32 },
}

impl Event {
    /// The name under which the event is published.
    pub open spec fn name_text(self) -> Seq<char> {
        match self {
            Event::Init { .. } => "init"@,
            Event::Tip { .. } => "tip"@,
            Event::Receipt { .. } => "receipt"@,
            Event::EscrowCreate { .. } => "escrow_create"@,
            Event::EscrowClaim { .. } => "escrow_claim"@,
            Event::EscrowCancel { .. } => "escrow_cancel"@,
            Event::StreamOpen { .. } => "stream_open"@,
            Event::StreamClaim { .. } => "stream_claim"@,
            Event::StreamTopUp { .. } => "stream_topup"@,
            Event::StreamPause { .. } => "stream_pause"@,
            Event::StreamResume { .. } => "stream_resume"@,
            Event::StreamClose { .. } => "stream_close"@,
            Event::Migrate { .. } => "migrate"@,
        }
    }

    /// The topics of the event: its name, then what it can be found by.
    pub open spec fn topic_data(self) -> Seq<Datum> {
        let name = Datum::Name(self.name_text());
        match self {
            Event::Init { .. } => seq![name],
            Event::Tip { from, to, .. } => seq![name, Datum::Account(from), Datum::Account(to)],
            Event::Receipt { from, .. } => seq![name, Datum::Account(from)],
            Event::EscrowCreate { id, .. } => seq![name, Datum::Number(id)],
            Event::EscrowClaim { id, .. } => seq![name, Datum::Number(id)],
            Event::EscrowCancel { id, .. } => seq![name, Datum::Number(id)],
            Event::StreamOpen { id, .. } => seq![name, Datum::Number(id)],
            Event::StreamClaim { id, .. } => seq![name, Datum::Number(id)],
            Event::StreamTopUp { id, .. } => seq![name, Datum::Number(id)],
            Event::StreamPause { id, .. } => seq![name, Datum::Number(id)],
            Event::StreamResume { id, .. } => seq![name, Datum::Number(id)],
            Event::StreamClose { id, .. } => seq![name, Datum::Number(id)],
            Event::Migrate { .. } => seq![name],
        }
    }

    /// The data of the event, without the version that stands before it.
    pub open spec fn details(self) -> Seq<Datum> {
        match self {
            Event::Init { admin } => seq![Datum::Account(admin)],
            Event::Tip { amount, .. } => seq![Datum::Amount(amount)],
            Event::Receipt { index, .. } => seq![Datum::Number(index)],
            Event::EscrowCreate { from, to, amount, release_ledger, .. } => seq![
                Datum::Account(from),
                Datum::Account(to),
                Datum::Amount(amount),
                Datum::Number(release_ledger),
            ],
            Event::EscrowClaim { to, amount, .. } => seq![
                Datum::Account(to),
                Datum::Amount(amount),
            ],
            Event::EscrowCancel { from, amount, .. } => seq![
                Datum::Account(from),
                Datum::Amount(amount),
            ],
            Event::StreamOpen { payer, recipients, weights, rate_per_ledger, deposit, .. } => seq![
                Datum::Account(payer),
                Datum::List(address_items(recipients)->0.map_values(|a: Address| Datum::Account(a))),
                Datum::List(number_items(weights)->0.map_values(|n: u32| Datum::Number(n))),
                Datum::Amount(rate_per_ledger),
                Datum::Amount(deposit),
            ],
            Event::StreamClaim { recipient, amount, .. } => seq![
                Datum::Account(recipient),
                Datum::Amount(amount),
            ],
            Event::StreamTopUp { payer, amount, deposited, .. } => seq![
                Datum::Account(payer),
                Datum::Amount(amount),
                Datum::Amount(deposited),
            ],
            Event::StreamPause { payer, paused_at_ledger, .. } => seq![
                Datum::Account(payer),
                Datum::Number(paused_at_ledger),
            ],
            Event::StreamResume { payer, pause_length, .. } => seq![
                Datum::Account(payer),
                Datum::Number(pause_length),
            ],
            Event::StreamClose { owed, refund, .. } => seq![
                Datum::Amount(owed),
                Datum::Amount(refund),
            ],
            Event::Migrate { from_version, to_version } => seq![
                Datum::Number(from_version),
                Datum::Number(to_version),
            ],
        }
    }

    /// Every list in the event is made of items of its type.
    pub open spec fn well_typed(self) -> bool {
        match self {
            Event::StreamOpen { recipients, weights, .. } => {
                &&& address_items(recipients) is Some
                &&& number_items(weights) is Some
            },
            _ => true,
        }
    }

    proof fn lemma_name(self)
        ensures
            is_symbol_text(self.name_text()),
    {
        reveal_strlit("init");
        reveal_strlit("tip");
        reveal_strlit("receipt");
        reveal_strlit("escrow_create");
        reveal_strlit("escrow_claim");
        reveal_strlit("escrow_cancel");
        reveal_strlit("stream_open");
        reveal_strlit("stream_claim");
        reveal_strlit("stream_topup");
        reveal_strlit("stream_pause");
        reveal_strlit("stream_resume");
        reveal_strlit("stream_close");
        reveal_strlit("migrate");
    }

    /// The name under which the event is published.
    pub fn name(&self) -> (r: &'static str)
        ensures
            r@ == self.name_text(),
            is_symbol_text(r@),
    {
        proof {
            self.lemma_name();
        }
        match self {
            Event::Init { .. } => "init",
            Event::Tip { .. } => "tip",
            Event::Receipt { .. } => "receipt",
            Event::EscrowCreate { .. } => "escrow_create",
            Event::EscrowClaim { .. } => "escrow_claim",
            Event::EscrowCancel { .. } => "escrow_cancel",
            Event::StreamOpen { .. } => "stream_open",
            Event::StreamClaim { .. } => "stream_claim",
            Event::StreamTopUp { .. } => "stream_topup",
            Event::StreamPause { .. } => "stream_pause",
            Event::StreamResume { .. } => "stream_resume",
            Event::StreamClose { .. } => "stream_close",
            Event::Migrate { .. } => "migrate",
        }
    }

    /// The topics to publish the event with.
    pub fn topics(&self, env: &Env) -> (r: Vec<Val>)
        ensures
            r@.map_values(|v: Val| datum(v)) == self.topic_data(),
    {
        let name = name_value(&symbol(env, self.name()));
        let topics: Vec<Val> = match self {
            Event::Init { .. } => vec![name],
            Event::Tip { from, to, .. } => vec![name, account_value(from), account_value(to)],
            Event::Receipt { from, .. } => vec![name, account_value(from)],
            Event::EscrowCreate { id, .. } => vec![name, number_value(env, *id)],
            Event::EscrowClaim { id, .. } => vec![name, number_value(env, *id)],
            Event::EscrowCancel { id, .. } => vec![name, number_value(env, *id)],
            Event::StreamOpen { id, .. } => vec![name, number_value(env, *id)],
            Event::StreamClaim { id, .. } => vec![name, number_value(env, *id)],
            Event::StreamTopUp { id, .. } => vec![name, number_value(env, *id)],
            Event::StreamPause { id, .. } => vec![name, number_value(env, *id)],
            Event::StreamResume { id, .. } => vec![name, number_value(env, *id)],
            Event::StreamClose { id, .. } => vec![name, number_value(env, *id)],
            Event::Migrate { .. } => vec![name],
        };
        assert(topics@.map_values(|v: Val| datum(v)) =~= self.topic_data());
        topics
    }

    /// The data to publish the event with: the given version, then what the
    /// event tells.
    pub fn data(&self, env: &Env, version: u32) -> (r: Val)
        ensures
            self.well_typed() ==> datum(r) == Datum::List(
                seq![Datum::Number(version)] + self.details(),
            ),
    {
        let version_value = number_value(env, version);
        let items: Vec<Val> = match self {
            Event::Init { admin } => vec![version_value, account_value(admin)],
            Event::Tip { amount, .. } => vec![version_value, amount_value(env, *amount)],
            Event::Receipt { index, .. } => vec![version_value, number_value(env, *index)],
            Event::EscrowCreate { from, to, amount, release_ledger, .. } => vec![
                version_value,
                account_value(from),
                account_value(to),
                amount_value(env, *amount),
                number_value(env, *release_ledger),
            ],
            Event::EscrowClaim { to, amount, .. } => vec![
                version_value,
                account_value(to),
                amount_value(env, *amount),
            ],
            Event::EscrowCancel { from, amount, .. } => vec![
                version_value,
                account_value(from),
                amount_value(env, *amount),
            ],
            Event::StreamOpen { payer, recipients, weights, rate_per_ledger, deposit, .. } => vec![
                version_value,
                account_value(payer),
                address_list_value(recipients),
                number_list_value(weights),
                amount_value(env, *rate_per_ledger),
                amount_value(env, *deposit),
            ],
            Event::StreamClaim { recipient, amount, .. } => vec![
                version_value,
                account_value(recipient),
                amount_value(env, *amount),
            ],
            Event::StreamTopUp { payer, amount, deposited, .. } => vec![
                version_value,
                account_value(payer),
                amount_value(env, *amount),
                amount_value(env, *deposited),
            ],
            Event::StreamPause { payer, paused_at_ledger, .. } => vec![
                version_value,
                account_value(payer),
                number_value(env, *paused_at_ledger),
            ],
            Event::StreamResume { payer, pause_length, .. } => vec![
                version_value,
                account_value(payer),
                number_value(env, *pause_length),
            ],
            Event::StreamClose { owed, refund, .. } => vec![
                version_value,
                amount_value(env, *owed),
                amount_value(env, *refund),
            ],
            Event::Migrate { from_version, to_version } => vec![
                version_value,
                number_value(env, *from_version),
                number_value(env, *to_version),
            ],
        };
        assert(self.well_typed() ==> items@.map_values(|v: Val| datum(v)) =~= seq![
            Datum::Number(version),
        ] + self.details());
        list_value(env, &items)
    }
}

/// What is left to do for a call once the storage is written.
pub enum Action {
    /// Move `amount` of `token`.
    Transfer { token: Address, from: Party, to: Party, amount: i128 },
    /// Publish `event`, with its data in the layout of this `version`.
    Publish { version: u32, event: Event },
}

/// The publication of an event in the current layout.
pub open spec fn published(event: Event) -> Action {
    Action::Publish { version: EVENT_SCHEMA_VERSION, event }
}

/// What a call comes to.
///
/// The one who carries the call out asks for the signature first, then looks
/// at the outcome, and on success performs the actions in their order. If any
/// of this stops, the host undoes the call.
pub struct Answer<T> {
    /// The one who has to have signed the call, if anyone.
    pub signer: Option<Address>,
    /// What is left to do. Nothing, if the call failed.
    pub actions: Vec<Action>,
    pub outcome: Result<T, Failure>,
}

/// What a call does: the storage after it, and what it answers.
pub struct Step<T> {
    pub storage: Storage,
    pub signer: Option<Address>,
    pub actions: Seq<Action>,
    pub outcome: Result<T, Failure>,
}

impl<T> Step<T> {
    /// The call leaves `storage` behind and answers `answer`.
    pub open spec fn gives(self, storage: Storage, answer: Answer<T>) -> bool {
        &&& storage == self.storage
        &&& answer.signer == self.signer
        &&& answer.actions@ =~= self.actions
        &&& answer.outcome == self.outcome
    }

    /// A call that fails and leaves `storage` behind.
    pub open spec fn failed(storage: Storage, signer: Option<Address>, failure: Failure) -> Self {
        Step { storage, signer, actions: Seq::empty(), outcome: Err(failure) }
    }

    /// A call that stops the invocation.
    pub open spec fn trapped(storage: Storage, signer: Option<Address>, trap: Trap) -> Self {
        Step::failed(storage, signer, Failure::Trap(trap))
    }

    /// A call that succeeds.
    pub open spec fn done(
        storage: Storage,
        signer: Option<Address>,
        value: T,
        actions: Seq<Action>,
    ) -> Self {
        Step { storage, signer, actions, outcome: Ok(value) }
    }
}

impl<T> Answer<T> {
    /// The answer of a call that fails.
    pub(crate) fn failed(signer: Option<Address>, failure: Failure) -> (r: Answer<T>)
        ensures
            r.signer == signer,
            r.actions@ == Seq::<Action>::empty(),
            r.outcome == Err::<T, Failure>(failure),
    {
        Answer { signer, actions: Vec::new(), outcome: Err(failure) }
    }

    /// The answer of a call that stops the invocation.
    pub(crate) fn trapped(signer: Option<Address>, trap: Trap) -> (r: Answer<T>)
        ensures
            r.signer == signer,
            r.actions@ == Seq::<Action>::empty(),
            r.outcome == Err::<T, Failure>(Failure::Trap(trap)),
    {
        Answer { signer, actions: Vec::new(), outcome: Err(Failure::Trap(trap)) }
    }
}

} // verus!
