//! Receipts for payments.
use soroban_sdk::{Address, Env};
use vstd::prelude::*;

use crate::arith::{checked_next, next};
use crate::clock::{current_ledger, current_time, is_current_ledger, is_current_time};
use crate::outcome::{published, Action, Answer, Event, Failure, Step, Trap};
use crate::records::{read_legacy_receipt, read_receipt, ReceiptView};
use crate::sdk::{number_value, string_bytes, string_len, Datum};
use crate::storage::{extend_persistent_ttl, extend_present_ttl, number_or_zero, put, storage,
    Storage};
use crate::types::{ContractError, DataKey, LegacyReceiptMetadata, MicroPayContract, ReceiptMetadata,
    EVENT_SCHEMA_VERSION, MAX_RECEIPT_MEMO_BYTES};

verus! {

/// Minting a receipt, which becomes the next one of its payer.
pub open spec fn mint_receipt_step(s: Storage, receipt: ReceiptView) -> Step<u32> {
    let signer = Some(receipt.from);
    if receipt.amount <= 0 {
        Step::trapped(s, signer, Trap::ReceiptAmountNotPositive)
    } else if receipt.memo.len() > MAX_RECEIPT_MEMO_BYTES {
        Step::failed(s, signer, Failure::Error(ContractError::ReceiptMemoTooLong))
    } else {
        match s.number_or_zero(DataKey::ReceiptCount(receipt.from)) {
            Err(trap) => Step::trapped(s, signer, trap),
            Ok(count) => match next(count) {
                Err(trap) => Step::trapped(s, signer, trap),
                Ok(new_count) => Step::done(
                    s.put(DataKey::ReceiptRecordV2(receipt.from, count), receipt.encoded()).put(
                        DataKey::ReceiptCount(receipt.from),
                        Datum::Number(new_count),
                    ),
                    signer,
                    count,
                    seq![published(Event::Receipt { from: receipt.from, index: count })],
                ),
            },
        }
    }
}

impl MicroPayContract {
    /// Mints a receipt at the current ledger.
    pub fn mint_receipt(
        env: &mut Env,
        from: Address,
        to: Address,
        amount: i128,
        memo: soroban_sdk::String,
    ) -> (r: Answer<u32>)
        ensures
            exists|timestamp: u64, now: u32|
                is_current_time(*old(env), timestamp) && is_current_ledger(*old(env), now)
                    && #[trigger]
                mint_receipt_step(
                    storage(*old(env)),
                    (ReceiptView {
                        from,
                        to,
                        amount,
                        timestamp,
                        memo: string_bytes(memo),
                        ledger: now,
                    }),
                ).gives(storage(*final(env)), r),
    {
        let timestamp: u64 = current_time(env);
        let ledger: u32 = current_ledger(env);
        MicroPayContract::mint_receipt_as(
            env,
            ReceiptMetadata { from, to, amount, timestamp, memo, ledger },
        )
    }

    /// Mints the given receipt.
    pub fn mint_receipt_as(env: &mut Env, receipt: ReceiptMetadata) -> (r: Answer<u32>)
        ensures
            mint_receipt_step(storage(*old(env)), receipt@).gives(storage(*final(env)), r),
    {
        let from = receipt.from.clone();
        if receipt.amount <= 0 {
            return Answer::trapped(Some(from), Trap::ReceiptAmountNotPositive);
        }
        if string_len(&receipt.memo) > MAX_RECEIPT_MEMO_BYTES {
            return Answer::failed(Some(from), Failure::Error(ContractError::ReceiptMemoTooLong));
        }
        let count_key = DataKey::ReceiptCount(from.clone());
        let count: u32 = match number_or_zero(env, &count_key) {
            Ok(count) => count,
            Err(trap) => {
                return Answer::trapped(Some(from), trap);
            },
        };
        let new_count: u32 = match checked_next(count) {
            Ok(new_count) => new_count,
            Err(trap) => {
                return Answer::trapped(Some(from), trap);
            },
        };
        let record_value = receipt.encode(env);
        put(env, &DataKey::ReceiptRecordV2(from.clone(), count), &record_value);
        let count_value = number_value(env, new_count);
        put(env, &count_key, &count_value);
        let event = Event::Receipt { from: from.clone(), index: count };
        let actions: Vec<Action> = vec![Action::Publish { version: EVENT_SCHEMA_VERSION, event }];
        Answer { signer: Some(from), actions, outcome: Ok(count) }
    }

    /// The number of receipts of `payer`.
    pub fn get_receipt_count(env: &mut Env, payer: Address) -> (r: Result<u32, Trap>)
        ensures
            r == storage(*old(env)).number_or_zero(DataKey::ReceiptCount(payer)),
            storage(*final(env)) == if r is Ok {
                storage(*old(env)).renew_present(DataKey::ReceiptCount(payer))
            } else {
                storage(*old(env))
            },
    {
        let key = DataKey::ReceiptCount(payer);
        let count: u32 = number_or_zero(env, &key)?;
        extend_present_ttl(env, &key);
        Ok(count)
    }

    /// The receipt at place `index` among those of `payer`.
    pub fn get_receipt(env: &mut Env, payer: Address, index: u32) -> (r: Result<
        ReceiptMetadata,
        Trap,
    >)
        ensures
            match storage(*old(env)).receipt(
                DataKey::ReceiptRecordV2(payer, index),
                Trap::ReceiptNotFound,
            ) {
                Ok(receipt) => {
                    &&& r is Ok
                    &&& r->Ok_0@ == receipt
                    &&& storage(*final(env)) == storage(*old(env)).renew(
                        DataKey::ReceiptRecordV2(payer, index),
                    )
                },
                Err(trap) => {
                    &&& r is Err
                    &&& r->Err_0 == trap
                    &&& storage(*final(env)) == storage(*old(env))
                },
            },
    {
        let key = DataKey::ReceiptRecordV2(payer, index);
        let receipt = read_receipt(env, &key, Trap::ReceiptNotFound)?;
        extend_persistent_ttl(env, &key);
        Ok(receipt)
    }

    /// The receipt of the legacy layout at place `index` among those of
    /// `payer`. Its memo stays a symbol, as it was written.
    pub fn get_legacy_receipt(env: &mut Env, payer: Address, index: u32) -> (r: Result<
        LegacyReceiptMetadata,
        Trap,
    >)
        ensures
            match storage(*old(env)).legacy_receipt(
                DataKey::ReceiptRecord(payer, index),
                Trap::LegacyReceiptNotFound,
            ) {
                Ok(receipt) => {
                    &&& r is Ok
                    &&& r->Ok_0@ == receipt
                    &&& storage(*final(env)) == storage(*old(env)).renew(
                        DataKey::ReceiptRecord(payer, index),
                    )
                },
                Err(trap) => {
                    &&& r is Err
                    &&& r->Err_0 == trap
                    &&& storage(*final(env)) == storage(*old(env))
                },
            },
    {
        let key = DataKey::ReceiptRecord(payer, index);
        let receipt = read_legacy_receipt(env, &key, Trap::LegacyReceiptNotFound)?;
        extend_persistent_ttl(env, &key);
        Ok(receipt)
    }
}

} // verus!
