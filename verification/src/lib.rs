//! A payment contract: tips, receipts, escrows and streams, kept in the
//! persistent storage of a Soroban contract.
//!
//! The functions of [`MicroPayContract`] decide and write to the storage. What
//! a call asks of others, the signature of an account, transfers of tokens and
//! events, is in the [`Answer`] that it gives: the caller asks for the
//! signature, and once the call has succeeded carries out the actions in their
//! order. A call that fails gives a [`Failure`], and the host discards what it
//! has written.
//!
//! * `types`, `outcome`: what calls take and give;
//! * `sdk`: the functions of the Soroban SDK that the library calls, and what
//!   it takes for granted of them;
//! * `keys`, `records`, `storage`: how entries are written down, and the
//!   storage as a map from keys to entries;
//! * `arith`, `accrual`: checked arithmetic, and how streams accrue;
//! * `admin`, `schema`, `tips`, `receipts`, `escrows`, `streams`: the calls;
//! * `laws`: what holds of all of them together.
use vstd::prelude::*;

pub mod accrual;
pub mod admin;
pub mod arith;
pub mod clock;
pub mod escrows;
pub mod keys;
pub mod laws;
pub mod outcome;
pub mod receipts;
pub mod records;
pub mod schema;
pub mod sdk;
pub mod storage;
pub mod streams;
pub mod tips;
pub mod types;

pub use outcome::{Action, Answer, Event, Failure, Party, Trap};
pub use types::{
    ContractError, DataKey, Escrow, EscrowStatus, LegacyReceiptMetadata, MicroPayContract,
    ReceiptMetadata, Stream, StreamRecipient, TipRecord, EVENT_SCHEMA_VERSION,
    MAX_RECEIPT_MEMO_BYTES, MIN_STREAM_DEPOSIT, MIN_STREAM_DURATION_LEDGERS, SCHEMA_VERSION,
};

verus! {

} // verus!
