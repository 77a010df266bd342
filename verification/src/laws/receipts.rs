//! What holds of all receipts.
use soroban_sdk::Address;
use vstd::prelude::*;

use crate::laws::calls::{law_calls_keep_to_their_records, unchanged, Call, Family, PaymentCall};
use crate::outcome::{Failure, Trap};
use crate::receipts::mint_receipt_step;
use crate::records::ReceiptView;
use crate::storage::Storage;
use crate::types::{ContractError, DataKey, MAX_RECEIPT_MEMO_BYTES};

verus! {

/// The number of receipts of `payer`.
pub open spec fn receipt_count(s: Storage, payer: Address) -> u32 {
    s.number_or_zero(DataKey::ReceiptCount(payer))->Ok_0
}

/// A receipt of `payer`.
pub open spec fn receipt_at(s: Storage, payer: Address, index: u32) -> ReceiptView {
    s.receipt(DataKey::ReceiptRecordV2(payer, index), Trap::ReceiptNotFound)->Ok_0
}

/// There is a receipt of `payer` at this place, for an amount, and its memo
/// is not too long.
pub open spec fn has_sound_receipt(s: Storage, payer: Address, index: u32) -> bool {
    &&& s.receipt(DataKey::ReceiptRecordV2(payer, index), Trap::ReceiptNotFound) is Ok
    &&& receipt_at(s, payer, index).from == payer
    &&& receipt_at(s, payer, index).amount > 0
    &&& receipt_at(s, payer, index).memo.len() <= MAX_RECEIPT_MEMO_BYTES
}

/// There is a receipt at this place.
pub open spec fn has_receipt(s: Storage, payer: Address, index: u32) -> bool {
    s.has(DataKey::ReceiptRecordV2(payer, index)) || s.has(DataKey::ReceiptRecord(payer, index))
}

/// Every place below the count of the receipts of `payer` holds a receipt, of
/// the current layout or of the legacy one. Those of the current layout are
/// sound.
pub open spec fn payer_receipts_sound(s: Storage, payer: Address) -> bool {
    &&& s.number_or_zero(DataKey::ReceiptCount(payer)) is Ok
    &&& forall|i: u32| #[trigger]
        s.has(DataKey::ReceiptRecordV2(payer, i)) ==> i < receipt_count(s, payer)
    &&& forall|i: u32|
        s.has(DataKey::ReceiptRecordV2(payer, i)) ==> #[trigger] has_sound_receipt(s, payer, i)
    &&& forall|i: u32|
        i < receipt_count(s, payer) ==> #[trigger] has_receipt(s, payer, i)
}

/// The receipts of all payers are sound.
pub open spec fn receipts_sound(s: Storage) -> bool {
    forall|payer: Address| #[trigger] payer_receipts_sound(s, payer)
}

/// A receipt is minted exactly if its amount is positive, its memo is not too
/// long, and there is a number left for it; a memo that is too long is refused
/// with the error for it. The receipt is then read back as it was minted, at
/// the next place of its payer, and all other receipts are as they were.
pub proof fn law_receipt_is_read_back(s: Storage, receipt: ReceiptView)
    requires
        receipts_sound(s),
    ensures
        ({
            let step = mint_receipt_step(s, receipt);
            let count = receipt_count(s, receipt.from);
            &&& step.outcome is Ok <==> receipt.amount > 0 && receipt.memo.len()
                <= MAX_RECEIPT_MEMO_BYTES && count < u32::MAX
            &&& receipt.amount > 0 && receipt.memo.len() > MAX_RECEIPT_MEMO_BYTES ==> step.outcome
                == Err::<u32, Failure>(Failure::Error(ContractError::ReceiptMemoTooLong))
            &&& step.outcome is Ok ==> {
                &&& step.outcome->Ok_0 == count
                &&& step.storage.receipt(
                    DataKey::ReceiptRecordV2(receipt.from, count),
                    Trap::ReceiptNotFound,
                ) == Ok::<ReceiptView, Trap>(receipt)
                &&& receipt_count(step.storage, receipt.from) == count + 1
                &&& forall|i: u32|
                    i != count ==> #[trigger] receipt_at(step.storage, receipt.from, i)
                        == receipt_at(s, receipt.from, i)
                &&& forall|other: Address, i: u32|
                    other != receipt.from ==> #[trigger] receipt_at(step.storage, other, i)
                        == receipt_at(s, other, i)
                &&& forall|other: Address|
                    other != receipt.from ==> #[trigger] receipt_count(step.storage, other)
                        == receipt_count(s, other)
                &&& receipts_sound(step.storage)
            }
        }),
{
    let step = mint_receipt_step(s, receipt);
    let payer = receipt.from;
    let count = receipt_count(s, payer);
    assert(payer_receipts_sound(s, payer));
    if step.outcome is Ok {
        let t = step.storage;
        receipt.lemma_round_trip();
        assert forall|i: u32| i != count implies #[trigger] receipt_at(t, payer, i) == receipt_at(
            s,
            payer,
            i,
        ) by {
            assert(unchanged(s, t, DataKey::ReceiptRecordV2(payer, i)));
        }
        assert forall|other: Address, i: u32| other != payer implies #[trigger] receipt_at(
            t,
            other,
            i,
        ) == receipt_at(s, other, i) by {
            assert(unchanged(s, t, DataKey::ReceiptRecordV2(other, i)));
        }
        assert forall|account: Address| #[trigger] payer_receipts_sound(t, account) by {
            assert(payer_receipts_sound(s, account));
            assert forall|i: u32| #[trigger]
                t.has(DataKey::ReceiptRecordV2(account, i)) implies i < receipt_count(
                t,
                account,
            ) by {
                assert(account == payer && i == count || s.has(
                    DataKey::ReceiptRecordV2(account, i),
                ));
            }
            assert forall|i: u32|
                t.has(DataKey::ReceiptRecordV2(account, i)) implies #[trigger] has_sound_receipt(
                t,
                account,
                i,
            ) by {
                if account != payer || i != count {
                    assert(has_sound_receipt(s, account, i));
                    assert(unchanged(s, t, DataKey::ReceiptRecordV2(account, i)));
                }
            }
            assert forall|i: u32| i < receipt_count(t, account) implies #[trigger] has_receipt(
                t,
                account,
                i,
            ) by {
                if account != payer || i != count {
                    assert(has_receipt(s, account, i));
                }
            }
        }
    }
}

/// Whatever call is made, the receipts of every payer stay sound.
pub proof fn law_receipts_stay_sound(s: Storage, call: Call, now: u32)
    requires
        receipts_sound(s),
    ensures
        receipts_sound(call.effect(s, now).storage),
{
    let after = call.effect(s, now).storage;
    match call {
        Call::Payment(PaymentCall::MintReceipt { from, to, amount, timestamp, memo }) => {
            reveal(PaymentCall::effect);
            law_receipt_is_read_back(
                s,
                ReceiptView { from, to, amount, timestamp, memo, ledger: now },
            );
        },
        _ => {
            law_calls_keep_to_their_records(s, call, now, Family::Receipts);
            assert forall|payer: Address| #[trigger] payer_receipts_sound(after, payer) by {
                assert(payer_receipts_sound(s, payer));
                assert(unchanged(s, after, DataKey::ReceiptCount(payer)));
                assert forall|i: u32| #[trigger]
                    after.has(DataKey::ReceiptRecordV2(payer, i)) implies i < receipt_count(
                    after,
                    payer,
                ) by {
                    assert(unchanged(s, after, DataKey::ReceiptRecordV2(payer, i)));
                    assert(s.has(DataKey::ReceiptRecordV2(payer, i)));
                }
                assert forall|i: u32|
                    after.has(
                        DataKey::ReceiptRecordV2(payer, i),
                    ) implies #[trigger] has_sound_receipt(after, payer, i) by {
                    assert(unchanged(s, after, DataKey::ReceiptRecordV2(payer, i)));
                    assert(has_sound_receipt(s, payer, i));
                }
                assert forall|i: u32|
                    i < receipt_count(after, payer) implies #[trigger] has_receipt(
                    after,
                    payer,
                    i,
                ) by {
                    assert(has_receipt(s, payer, i));
                    assert(unchanged(s, after, DataKey::ReceiptRecordV2(payer, i)));
                    assert(unchanged(s, after, DataKey::ReceiptRecord(payer, i)));
                }
            }
        },
    }
}

/// No call changes a receipt that was minted, of either layout.
pub proof fn law_receipts_never_change(
    s: Storage,
    call: Call,
    now: u32,
    payer: Address,
    index: u32,
)
    requires
        receipts_sound(s),
    ensures
        s.has(DataKey::ReceiptRecordV2(payer, index)) ==> call.effect(s, now).storage.receipt(
            DataKey::ReceiptRecordV2(payer, index),
            Trap::ReceiptNotFound,
        ) == s.receipt(DataKey::ReceiptRecordV2(payer, index), Trap::ReceiptNotFound),
        call.effect(s, now).storage.legacy_receipt(
            DataKey::ReceiptRecord(payer, index),
            Trap::LegacyReceiptNotFound,
        ) == s.legacy_receipt(DataKey::ReceiptRecord(payer, index), Trap::LegacyReceiptNotFound),
{
    let after = call.effect(s, now).storage;
    if let Call::Payment(PaymentCall::MintReceipt { from, .. }) = call {
        reveal(PaymentCall::effect);
        assert(payer_receipts_sound(s, from));
        assert(unchanged(s, after, DataKey::ReceiptRecord(payer, index)));
        if s.has(DataKey::ReceiptRecordV2(payer, index)) {
            assert(unchanged(s, after, DataKey::ReceiptRecordV2(payer, index)));
        }
    } else {
        law_calls_keep_to_their_records(s, call, now, Family::Receipts);
        assert(unchanged(s, after, DataKey::ReceiptRecord(payer, index)));
        assert(unchanged(s, after, DataKey::ReceiptRecordV2(payer, index)));
    }
}

/// Nothing but a call that the payer signs adds to the receipts of a payer.
pub proof fn law_only_payer_mints(s: Storage, call: Call, now: u32, payer: Address)
    requires
        receipts_sound(s),
        receipt_count(call.effect(s, now).storage, payer) != receipt_count(s, payer),
    ensures
        call.effect(s, now).signer == Some(payer),
{
    if let Call::Payment(PaymentCall::MintReceipt { .. }) = call {
        reveal(PaymentCall::effect);
    } else {
        law_calls_keep_to_their_records(s, call, now, Family::Receipts);
        assert(unchanged(s, call.effect(s, now).storage, DataKey::ReceiptCount(payer)));
    }
}

} // verus!
