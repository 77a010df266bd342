//! The data of the contract: what it stores, under which keys, and the
//! numbers that bound it.
use soroban_sdk::{Address, Symbol, Val};
use vstd::prelude::*;

verus! {

/// The errors that a caller can tell apart.
#[derive(Copy, Clone, Debug, PartialEq, Eq, Structural)]
pub enum ContractError {
    AlreadyInitialized,
    SchemaAlreadyCurrent,
    SchemaDowngrade,
    EscrowClaimTooEarly,
    EscrowCancelTooLate,
    ReceiptMemoTooLong,
}

impl ContractError {
    /// The number that the network shows for the error.
    pub open spec fn number(self) -> u32 {
        match self {
            ContractError::AlreadyInitialized => 1,
            ContractError::SchemaAlreadyCurrent => 2,
            ContractError::SchemaDowngrade => 3,
            ContractError::EscrowClaimTooEarly => 4,
            ContractError::EscrowCancelTooLate => 5,
            ContractError::ReceiptMemoTooLong => 6,
        }
    }

    /// The number that the network shows for the error.
    pub fn code(self) -> (r: u32)
        ensures
            r == self.number(),
    {
        match self {
            ContractError::AlreadyInitialized => 1,
            ContractError::SchemaAlreadyCurrent => 2,
            ContractError::SchemaDowngrade => 3,
            ContractError::EscrowClaimTooEarly => 4,
            ContractError::EscrowCancelTooLate => 5,
            ContractError::ReceiptMemoTooLong => 6,
        }
    }
}

/// An entry with this many ledgers left, or fewer, has its lifetime extended
/// when the contract touches it.
pub const PERSISTENT_LIFETIME_THRESHOLD: u32 = 100_000;

/// The lifetime, in ledgers, that such an entry is given.
pub const PERSISTENT_BUMP_AMOUNT: u32 = 500_000;

/// Version of the storage layout. `initialize` writes it and `migrate` brings
/// older instances to it. It goes up whenever a stored struct or a `DataKey`
/// variant changes shape.
pub const SCHEMA_VERSION: u32 = 4;

/// Version of the data of every event. The names and topics of the events
/// stay as they are, so an indexer reads this number to pick its decoder.
pub const EVENT_SCHEMA_VERSION: u32 = 1;

/// The longest receipt memo, in bytes.
pub const MAX_RECEIPT_MEMO_BYTES: u32 = 256;

/// The smallest deposit that opens a stream, in stroops. Moving the payout of
/// a smaller one, and keeping its entry alive, costs more than it pays.
pub const MIN_STREAM_DEPOSIT: i128 = 10_000;

/// The smallest number of ledgers that the deposit of a new stream must last
/// for: about five minutes.
pub const MIN_STREAM_DURATION_LEDGERS: u32 = 60;

/// The most ids that one page of an escrow listing holds.
pub const MAX_ESCROW_PAGE_SIZE: u32 = 50;

/// A tip that was sent.
#[derive(Clone, Debug)]
pub struct TipRecord {
    pub from: Address,
    pub to: Address,
    pub amount: i128,
    pub ledger: u32,
}

/// A receipt for a payment.
#[derive(Debug)]
pub struct ReceiptMetadata {
    pub from: Address,
    pub to: Address,
    pub amount: i128,
    pub timestamp: u64,
    pub memo: soroban_sdk::String,
    pub ledger: u32,
}

/// A receipt as storage schemas before the fourth laid it out. Such receipts
/// are still read, through `get_legacy_receipt`, but no longer written.
#[derive(Debug)]
pub struct LegacyReceiptMetadata {
    pub from: Address,
    pub to: Address,
    pub amount: i128,
    pub timestamp: u64,
    pub memo: Symbol,
    pub ledger: u32,
}

/// The key of a storage entry.
pub enum DataKey {
    Admin,
    TipTotal(Address),
    TipCount(Address),
    TipRecord(Address, u32),
    ReceiptCount(Address),
    /// A receipt of the legacy layout.
    ReceiptRecord(Address, u32),
    EscrowCount,
    Escrow(u32),
    StreamCount,
    Stream(u32),
    SchemaVersion,
    /// How many escrows the address has sent.
    EscrowSenderCount(Address),
    /// The id of the escrow at this place in the list of those it has sent.
    EscrowSenderIndex(Address, u32),
    /// How many escrows are payable to the address.
    EscrowRecipientCount(Address),
    /// The id of the escrow at this place in the list of those payable to it.
    EscrowRecipientIndex(Address, u32),
    /// A receipt of the current layout.
    ReceiptRecordV2(Address, u32),
}

/// Where an escrow stands.
#[derive(Copy, Clone, Debug, PartialEq, Eq, Structural)]
pub enum EscrowStatus {
    Pending,
    Released,
    Cancelled,
}

/// An amount that the contract holds for `to` until `release_ledger`.
#[derive(Clone, Debug)]
pub struct Escrow {
    pub id: u32,
    pub from: Address,
    pub to: Address,
    pub token: Address,
    pub amount: i128,
    pub release_ledger: u32,
    pub status: EscrowStatus,
}

/// The part of one recipient in a stream.
///
/// `weight` has no unit: the recipient is entitled to `weight` out of the sum
/// of all weights on the stream. `claimed` is what this recipient was paid so
/// far, which keeps its payout independent of when the others claim.
#[derive(Clone, Debug)]
pub struct StreamRecipient {
    pub recipient: Address,
    pub weight: u32,
    pub claimed: i128,
}

/// A continuous payment: the payer locks `deposited`, and for every ledger
/// that the stream runs `rate_per_ledger` accrues to the recipients, by
/// weight.
///
/// What has accrued is derived and never stored: the `claimed` amounts of the
/// recipients are the only money that changes while the stream runs.
#[derive(Clone, Debug)]
pub struct Stream {
    pub payer: Address,
    /// The recipients, up to the first item of the stored list that stands for
    /// none.
    pub recipients: Vec<StreamRecipient>,
    /// The items of the stored list; none for a stream that was not read from
    /// storage. Where a call does not change an item, it stays as it was stored.
    pub stored: Option<Vec<Val>>,
    pub rate_per_ledger: i128,
    pub deposited: i128,
    pub start_ledger: u32,
    /// The token that the deposit is in.
    pub token: Address,
    /// True while the payer has suspended accrual.
    pub paused: bool,
    /// The ledger at which the running pause began.
    pub paused_at_ledger: u32,
    /// Ledgers spent in pauses that are over, and those that the stream ran
    /// without being funded before its deposit was added to.
    pub paused_ledgers: u32,
    /// True once the stream was settled and the rest refunded.
    pub closed: bool,
}

/// The contract.
pub struct MicroPayContract;

} // verus!
